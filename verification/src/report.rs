//! The report on a result: a page of text, laid out from a trace.
//!
//! Positions are in half millimetres, counted from the left and from the
//! bottom of the page.

use vstd::prelude::*;

use crate::data::{DataQuality, SeriesQuality};
use crate::dates;
use crate::double::Double;
use crate::json::{self, Fields, Json, JsonView};
use crate::message::{self, Message, PieceView, Style};
use crate::routes;
use crate::select;
use crate::text;
use crate::trace::{self, EvidenceTrace, InvariantCheck};

verus! {

/// The left margin.
pub const LEFT: i128 = 40;

/// The right end of a line.
pub const RIGHT: i128 = 380;

/// Where the second column of a table begins.
pub const SECOND_COLUMN: i128 = 227;

/// Where the third column of a table begins.
pub const THIRD_COLUMN: i128 = 312;

/// Where the first line stands.
pub const TOP: i128 = 554;

// ---------------------------------------------------------------------------
// Characters
// ---------------------------------------------------------------------------

/// What is written for a character that the fonts of a page may lack.
pub open spec fn safe_char(c: char) -> Seq<char> {
    if c == '\u{20b9}' {
        "Rs."@
    } else if c == '\u{2212}' {
        "-"@
    } else if c == '\u{2713}' {
        "Y"@
    } else if c == '\u{2717}' {
        "N"@
    } else if c == '\u{26a0}' {
        "!"@
    } else {
        seq![c]
    }
}

/// A text with every character replaced that the fonts of a page may lack.
pub open spec fn safe(text: Seq<char>) -> Seq<char>
    decreases text.len(),
{
    if text.len() == 0 {
        seq![]
    } else {
        safe(text.drop_last()) + safe_char(text.last())
    }
}

/// Replaces the characters that the fonts of a page may lack: the sign of the
/// rupee, the minus sign, the marks for yes and no, and the warning sign.
pub fn pdf_safe(text: &str) -> (res: String)
    ensures
        res@ == safe(text@),
{
    let chars = text::chars_of(text);
    let mut out = String::new();
    let mut i: usize = 0;
    assert(chars@.take(0) =~= seq![]);
    while i < chars.len()
        invariant
            i <= chars@.len(),
            out@ == safe(chars@.take(i as int)),
        decreases chars.len() - i,
    {
        let ghost now = chars@.take(i as int + 1);
        assert(now.drop_last() =~= chars@.take(i as int));
        let c = chars[i];
        if c == '\u{20b9}' {
            out.append("Rs.");
        } else if c == '\u{2212}' {
            out.append("-");
        } else if c == '\u{2713}' {
            out.append("Y");
        } else if c == '\u{2717}' {
            out.append("N");
        } else if c == '\u{26a0}' {
            out.append("!");
        } else {
            out.push(c);
        }
        i += 1;
        assert(out@ =~= safe(now));
    }
    assert(chars@.take(chars@.len() as int) =~= text@);
    out
}

/// Whether a character is written as it is.
pub open spec fn is_safe(c: char) -> bool {
    safe_char(c) == seq![c]
}

proof fn lemma_safe_text_stays(text: Seq<char>)
    requires
        forall|i: int| 0 <= i < text.len() ==> is_safe(#[trigger] text[i]),
    ensures
        safe(text) == text,
    decreases text.len(),
{
    if text.len() > 0 {
        lemma_safe_text_stays(text.drop_last());
        assert(is_safe(text[text.len() - 1]));
        assert(text.drop_last() + seq![text.last()] =~= text);
    } else {
        assert(safe(text) =~= text);
    }
}

proof fn lemma_safe_characters(text: Seq<char>)
    ensures
        forall|i: int| 0 <= i < safe(text).len() ==> is_safe(#[trigger] safe(text)[i]),
    decreases text.len(),
{
    if text.len() > 0 {
        lemma_safe_characters(text.drop_last());
        let front = safe(text.drop_last());
        let back = safe_char(text.last());
        reveal_strlit("Rs.");
        reveal_strlit("-");
        reveal_strlit("Y");
        reveal_strlit("N");
        reveal_strlit("!");
        assert forall|i: int| 0 <= i < safe(text).len() implies is_safe(
            #[trigger] safe(text)[i],
        ) by {
            if i < front.len() {
                assert(safe(text)[i] == front[i]);
            } else {
                assert(safe(text)[i] == back[i - front.len()]);
            }
        }
    }
}

/// Replacing the characters that the fonts may lack a second time changes
/// nothing.
pub proof fn lemma_safe_twice(text: Seq<char>)
    ensures
        safe(safe(text)) == safe(text),
{
    lemma_safe_characters(text);
    lemma_safe_text_stays(safe(text));
}

/// Characters are replaced one by one: two parts put together give what each
/// gives; the rupee sign gives its abbreviation, the minus sign a hyphen, the
/// marks a letter, the warning sign an exclamation mark, and every other
/// character itself.
pub proof fn lemma_safe(a: Seq<char>, b: Seq<char>, c: char)
    ensures
        safe(a + b) == safe(a) + safe(b),
        safe(seq!['\u{20b9}']) == "Rs."@,
        safe(seq!['\u{2212}']) == "-"@,
        safe(seq!['\u{2713}']) == "Y"@,
        safe(seq!['\u{2717}']) == "N"@,
        safe(seq!['\u{26a0}']) == "!"@,
        c != '\u{20b9}' && c != '\u{2212}' && c != '\u{2713}' && c != '\u{2717}' && c
            != '\u{26a0}' ==> safe(seq![c]) == seq![c],
    decreases b.len(),
{
    lemma_safe_alone('\u{20b9}');
    lemma_safe_alone('\u{2212}');
    lemma_safe_alone('\u{2713}');
    lemma_safe_alone('\u{2717}');
    lemma_safe_alone('\u{26a0}');
    lemma_safe_alone(c);
    if b.len() == 0 {
        assert(a + b =~= a);
        assert(safe(a) + safe(b) =~= safe(a));
    } else {
        lemma_safe(a, b.drop_last(), c);
        assert((a + b).drop_last() =~= a + b.drop_last());
        assert((a + b).last() == b.last());
        assert(safe(a + b) =~= safe(a) + safe(b));
    }
}

proof fn lemma_safe_alone(c: char)
    ensures
        safe(seq![c]) == safe_char(c),
{
    assert(seq![c].drop_last() =~= seq![]);
    assert(safe(seq![c].drop_last()) =~= seq![]);
    assert(safe(seq![c]) =~= safe_char(c));
}

/// The width of a character in thousandths of the size of the font, roughly
/// that of Helvetica.
pub open spec fn width_of(c: char) -> int {
    if c == ' ' || c == '.' || c == ',' || c == '\'' || c == '!' || c == ':' || c == ';' || c == 'i'
        || c == 'j' || c == 'l' || c == 'I' || c == '|' {
        280
    } else if c == 'f' || c == 't' || c == 'r' {
        330
    } else if c == 'm' || c == 'w' || c == 'M' || c == 'W' || c == '%' {
        830
    } else if '0' <= c && c <= '9' {
        556
    } else if 'A' <= c && c <= 'Z' {
        700
    } else {
        520
    }
}

/// Digits are all of one width, capitals wider than digits, the widest letters
/// wider than those, and the narrow ones narrower than any other.
pub proof fn lemma_widths(c: char)
    ensures
        '0' <= c <= '9' ==> width_of(c) == 556,
        'A' <= c <= 'Z' && c != 'I' && c != 'M' && c != 'W' ==> width_of(c) == 700,
        c == 'm' || c == 'w' || c == 'M' || c == 'W' || c == '%' ==> width_of(c) == 830,
        c == 'f' || c == 't' || c == 'r' ==> width_of(c) == 330,
        c == ' ' || c == '.' || c == ',' || c == '\'' || c == '!' || c == ':' || c == ';' || c
            == 'i' || c == 'j' || c == 'l' || c == 'I' || c == '|' ==> width_of(c) == 280,
        'a' <= c <= 'z' && c != 'i' && c != 'j' && c != 'l' && c != 'f' && c != 't' && c != 'r'
            && c != 'm' && c != 'w' ==> width_of(c) == 520,
        280 <= width_of(c) <= 830,
{
}

/// The width of a character in thousandths of the size of the font.
pub fn char_width(c: char) -> (res: u16)
    ensures
        res == width_of(c),
{
    if c == ' ' || c == '.' || c == ',' || c == '\'' || c == '!' || c == ':' || c == ';' || c == 'i'
        || c == 'j' || c == 'l' || c == 'I' || c == '|' {
        280
    } else if c == 'f' || c == 't' || c == 'r' {
        330
    } else if c == 'm' || c == 'w' || c == 'M' || c == 'W' || c == '%' {
        830
    } else if '0' <= c && c <= '9' {
        556
    } else if 'A' <= c && c <= 'Z' {
        700
    } else {
        520
    }
}

// ---------------------------------------------------------------------------
// Lines
// ---------------------------------------------------------------------------

/// Text that is being broken into lines, word by word.
#[derive(Debug)]
pub struct WrappedText {
    pub lines: Vec<String>,
    /// The line that is being filled.
    pub current: String,
}

/// What a line becomes with one more word.
pub open spec fn longer(current: Seq<char>, word: Seq<char>) -> Seq<char> {
    if current.len() == 0 {
        word
    } else {
        current + " "@ + word
    }
}

/// The lines and the line that is being filled, after one more word.
pub open spec fn placed(
    lines: Seq<Seq<char>>,
    current: Seq<char>,
    word: Seq<char>,
    too_wide: bool,
) -> (Seq<Seq<char>>, Seq<char>) {
    if too_wide && current.len() > 0 {
        (lines.push(current), word)
    } else {
        (lines, longer(current, word))
    }
}

/// All lines, with the one that is being filled.
pub open spec fn all_lines(lines: Seq<Seq<char>>, current: Seq<char>) -> Seq<Seq<char>> {
    if current.len() == 0 {
        lines
    } else {
        lines.push(current)
    }
}

impl View for WrappedText {
    type V = (Seq<Seq<char>>, Seq<char>);

    open spec fn view(&self) -> (Seq<Seq<char>>, Seq<char>) {
        (text::views(self.lines@), self.current@)
    }
}

impl WrappedText {
    /// No text yet.
    pub fn new() -> (res: WrappedText)
        ensures
            res@ == (Seq::<Seq<char>>::empty(), Seq::<char>::empty()),
    {
        let res = WrappedText { lines: Vec::new(), current: String::new() };
        assert(res@.0 =~= Seq::empty());
        assert(res@.1 =~= Seq::empty());
        res
    }

    /// The line that is being filled, with one more word.
    pub fn candidate(&self, word: &str) -> (res: String)
        ensures
            res@ == longer(self@.1, word@),
    {
        if self.current.as_str().is_empty() {
            text::copy(word)
        } else {
            text::join3(self.current.as_str(), " ", word)
        }
    }

    /// Takes one more word; `too_wide` says whether the line would become too
    /// wide with it.
    pub fn place(&mut self, word: &str, too_wide: bool)
        ensures
            final(self)@ == placed(old(self)@.0, old(self)@.1, word@, too_wide),
    {
        let candidate = self.candidate(word);
        if too_wide && !self.current.as_str().is_empty() {
            let line = text::copy(self.current.as_str());
            self.lines.push(line);
            self.current = text::copy(word);
            assert(text::views(self.lines@) =~= text::views(old(self).lines@).push(
                old(self).current@,
            ));
        } else {
            self.current = candidate;
        }
    }

    /// All lines.
    pub fn finish(self) -> (res: Vec<String>)
        ensures
            text::views(res@) == all_lines(self@.0, self@.1),
    {
        let mut lines = self.lines;
        if !self.current.as_str().is_empty() {
            lines.push(self.current);
            assert(text::views(lines@) =~= text::views(self.lines@).push(self.current@));
        }
        lines
    }
}

/// The lines after the first `n` words, and the line that is being filled, by
/// a measure that says of a line whether it is too wide.
pub open spec fn laid_out(
    words: Seq<Seq<char>>,
    too_wide: spec_fn(Seq<char>) -> bool,
    n: int,
) -> (Seq<Seq<char>>, Seq<char>)
    decreases n,
{
    if n <= 0 {
        (seq![], seq![])
    } else {
        let before = laid_out(words, too_wide, n - 1);
        placed(
            before.0,
            before.1,
            words[n - 1],
            too_wide(longer(before.1, words[n - 1])),
        )
    }
}

proof fn lemma_joined_push(pieces: Seq<Seq<char>>, last: Seq<char>)
    ensures
        text::joined(pieces.push(last), " "@) == if pieces.len() == 0 {
            last
        } else {
            text::joined(pieces, " "@) + " "@ + last
        },
{
    assert(pieces.push(last).drop_last() =~= pieces);
}

/// Breaking a text into lines loses no word and keeps their order: the lines,
/// joined by spaces, are the words, joined by spaces.
pub proof fn lemma_wrapping_keeps_words(
    words: Seq<Seq<char>>,
    too_wide: spec_fn(Seq<char>) -> bool,
    n: int,
)
    requires
        0 <= n <= words.len(),
        forall|i: int| 0 <= i < words.len() ==> (#[trigger] words[i]).len() > 0,
    ensures
        ({
            let (lines, current) = laid_out(words, too_wide, n);
            &&& text::joined(all_lines(lines, current), " "@) == text::joined(words.take(n), " "@)
            &&& n > 0 ==> current.len() > 0
        }),
    decreases n,
{
    if n == 0 {
        assert(words.take(0) =~= seq![]);
        assert(all_lines(seq![], seq![]) =~= words.take(0));
    } else {
        lemma_wrapping_keeps_words(words, too_wide, n - 1);
        let (lines, current) = laid_out(words, too_wide, n - 1);
        let word = words[n - 1];
        assert(words.take(n) =~= words.take(n - 1).push(word));
        lemma_joined_push(words.take(n - 1), word);
        lemma_joined_push(lines, current);
        lemma_joined_push(lines.push(current), word);
        lemma_joined_push(lines, longer(current, word));
        if n > 1 {
            if lines.len() > 0 {
                assert(text::joined(lines, " "@) + " "@ + (current + " "@ + word) =~= text::joined(
                    lines,
                    " "@,
                ) + " "@ + current + " "@ + word);
            }
        } else {
            assert(lines =~= seq![]);
        }
    }
}

/// No line is too wide, unless it is a single word.
pub proof fn lemma_wrapped_lines_fit(
    words: Seq<Seq<char>>,
    too_wide: spec_fn(Seq<char>) -> bool,
    n: int,
)
    requires
        0 <= n <= words.len(),
    ensures
        ({
            let (lines, current) = laid_out(words, too_wide, n);
            let all = all_lines(lines, current);
            forall|i: int|
                0 <= i < all.len() ==> !too_wide(#[trigger] all[i]) || words.contains(all[i])
        }),
    decreases n,
{
    if n > 0 {
        lemma_wrapped_lines_fit(words, too_wide, n - 1);
        let (lines, current) = laid_out(words, too_wide, n - 1);
        let before = all_lines(lines, current);
        let word = words[n - 1];
        assert(words.contains(word));
        let (lines2, current2) = laid_out(words, too_wide, n);
        let all = all_lines(lines2, current2);
        assert forall|i: int| 0 <= i < all.len() implies !too_wide(#[trigger] all[i])
            || words.contains(all[i]) by {
            if i < lines.len() {
                assert(before[i] == lines[i] && all[i] == lines[i]);
            } else if i < lines2.len() {
                assert(before[i] == current && all[i] == current);
            }
        }
    }
}

// ---------------------------------------------------------------------------
// Key numbers
// ---------------------------------------------------------------------------

/// One row of a table of three columns.
#[derive(Debug)]
pub struct Row {
    pub first: Message,
    pub second: Message,
    pub third: Message,
}

/// What a row says.
pub struct RowView {
    pub first: Seq<PieceView>,
    pub second: Seq<PieceView>,
    pub third: Seq<PieceView>,
}

impl View for Row {
    type V = RowView;

    open spec fn view(&self) -> RowView {
        RowView { first: self.first@, second: self.second@, third: self.third@ }
    }
}

/// What rows say.
pub open spec fn rows_view(rows: Seq<Row>) -> Seq<RowView> {
    rows.map_values(|r: Row| r@)
}

/// A row with a number and its unit.
pub open spec fn number_row(label: Seq<char>, x: Double, style: Style, unit: Seq<char>) -> RowView {
    RowView {
        first: message::plain(label),
        second: seq![PieceView::Number(x, style)],
        third: message::plain(unit),
    }
}

/// A row with a share in percent.
pub open spec fn percent_row(label: Seq<char>, x: Double) -> RowView {
    number_row(label, x, Style::Percent(2), "%"@)
}

/// A row with an amount in rupees.
pub open spec fn rupee_row(label: Seq<char>, x: Double) -> RowView {
    number_row(label, x, Style::Rupees, "\u{20b9}"@)
}

/// The row about the current regime.
pub open spec fn regime_row(label: Option<Seq<char>>) -> RowView {
    RowView {
        first: message::plain("Current regime"@),
        second: message::plain(
            match label {
                Some(l) => l,
                None => "not requested"@,
            },
        ),
        third: message::plain("\u{2014}"@),
    }
}

fn with_number(label: &str, x: Double, style: Style, unit: &str) -> (res: Row)
    ensures
        res@ == number_row(label@, x, style, unit@),
{
    let mut second = Message::new();
    second.number(x, style);
    assert(second@ =~= seq![PieceView::Number(x, style)]);
    Row { first: Message::of(label), second, third: Message::of(unit) }
}

fn in_percent(label: &str, x: Double) -> (res: Row)
    ensures
        res@ == percent_row(label@, x),
{
    with_number(label, x, Style::Percent(2), "%")
}

fn in_rupees(label: &str, x: Double) -> (res: Row)
    ensures
        res@ == rupee_row(label@, x),
{
    with_number(label, x, Style::Rupees, "\u{20b9}")
}

fn of_regime(label: &Option<String>) -> (res: Row)
    ensures
        res@ == regime_row(
            match label {
                Some(l) => Some(l@),
                None => None,
            },
        ),
{
    let second = match label {
        Some(l) => Message::of(l.as_str()),
        None => Message::of("not requested"),
    };
    Row { first: Message::of("Current regime"), second, third: Message::of("\u{2014}") }
}

/// The number at the end of a chain of names, zero where there is none.
pub open spec fn number_or_zero(result: JsonView, path: Seq<Seq<char>>) -> Double {
    match json::double_at(result, path) {
        Some(x) => x,
        None => Double { bits: 0 },
    }
}

fn or_zero(result: &Json, path: &[&str]) -> (res: Double)
    ensures
        res == number_or_zero(result@, json::path_view(path@)),
{
    match result.double_at(path) {
        Some(x) => x,
        None => Double::zero(),
    }
}

/// The rows about the shocks among the first `n` fields of an object, each
/// with its name between `head` and `tail`.
pub open spec fn shock_rows(fields: Fields, head: Seq<char>, tail: Seq<char>, n: int) -> Seq<RowView>
    decreases n,
{
    if n <= 0 {
        seq![]
    } else {
        let rows = shock_rows(fields, head, tail, n - 1);
        match json::double_at(fields[n - 1].1, seq!["simple"@]) {
            Some(x) => rows.push(percent_row(head + fields[n - 1].0 + tail, x)),
            None => rows,
        }
    }
}

/// The rows about the shocks under a name of a result.
pub open spec fn shocks_under(
    result: JsonView,
    name: Seq<char>,
    head: Seq<char>,
    tail: Seq<char>,
) -> Seq<RowView> {
    match result.field(name) {
        Some(JsonView::Object(fields)) => shock_rows(fields, head, tail, fields.len() as int),
        _ => seq![],
    }
}

fn push_shocks(rows: &mut Vec<Row>, result: &Json, name: &str, head: &str, tail: &str)
    ensures
        rows_view(final(rows)@) == rows_view(old(rows)@) + shocks_under(
            result@,
            name@,
            head@,
            tail@,
        ),
{
    let ghost start = rows_view(rows@);
    if let Some(Json::Object(fields)) = result.get(name) {
        let ghost all = json::fields_view(fields@);
        proof {
            json::lemma_object_view(*fields);
        }
        let mut i: usize = 0;
        assert(start + shock_rows(all, head@, tail@, 0) =~= start);
        while i < fields.len()
            invariant
                i <= fields@.len(),
                all == json::fields_view(fields@),
                rows_view(rows@) == start + shock_rows(all, head@, tail@, i as int),
            decreases fields.len() - i,
        {
            let ghost before = rows_view(rows@);
            let path = ["simple"];
            assert(json::path_view(path@) =~= seq!["simple"@]);
            if let Some(x) = fields[i].value.double_at(&path) {
                let label = text::join3(head, fields[i].name.as_str(), tail);
                let row = in_percent(label.as_str(), x);
                let ghost said = row@;
                rows.push(row);
                assert(rows_view(rows@) =~= before.push(said));
            }
            i += 1;
            assert(rows_view(rows@) =~= start + shock_rows(all, head@, tail@, i as int));
        }
    } else {
        assert(start + shocks_under(result@, name@, head@, tail@) =~= start);
    }
}

/// The share of a factor of a decomposition; zero where none is given.
pub open spec fn share_of(factor: JsonView) -> Double {
    match json::double_at(factor, seq!["fraction_of_vol"@]) {
        Some(x) => if x.nan() {
            Double { bits: 0 }
        } else {
            x
        },
        None => Double { bits: 0 },
    }
}

/// The name of a factor of a decomposition.
pub open spec fn name_of(factor: JsonView) -> Seq<char> {
    match json::text_at(factor, seq!["factor"@]) {
        Some(s) => s,
        None => "?"@,
    }
}

/// The shares of the factors of a decomposition.
pub open spec fn shares_of(factors: Seq<JsonView>) -> Seq<Double> {
    factors.map_values(|f: JsonView| share_of(f))
}

/// Whether `rows` are those about the two factors with the largest shares, of
/// equal ones the first.
pub open spec fn are_largest_factors(factors: Seq<JsonView>, rows: Seq<RowView>) -> bool {
    exists|order: Seq<usize>| #[trigger]
        orders_factors(factors, order) && rows == factor_rows(factors, order)
}

/// Whether `order` lists the places of the factors by the size of their
/// shares, the largest first.
pub open spec fn orders_factors(factors: Seq<JsonView>, order: Seq<usize>) -> bool {
    select::is_sorted_order(select::magnitudes(shares_of(factors)), true, order)
}

/// The row about one factor.
pub open spec fn factor_row(label: Seq<char>, factor: JsonView) -> RowView {
    percent_row(label + ": "@ + name_of(factor), share_of(factor))
}

/// The rows about the first two factors of an order.
pub open spec fn factor_rows(factors: Seq<JsonView>, order: Seq<usize>) -> Seq<RowView> {
    let first = factor_row("Top factor by Euler contribution"@, factors[order[0] as int]);
    let second = factor_row("Second factor"@, factors[order[1] as int]);
    if order.len() == 0 {
        seq![]
    } else if order.len() == 1 {
        seq![first]
    } else {
        seq![first, second]
    }
}

fn share_in(factor: &Json) -> (res: Double)
    ensures
        res == share_of(factor@),
        !res.nan(),
{
    let path = ["fraction_of_vol"];
    assert(json::path_view(path@) =~= seq!["fraction_of_vol"@]);
    assert(!(Double { bits: 0 }).nan());
    match factor.double_at(&path) {
        Some(x) => if x.is_nan() {
            Double::zero()
        } else {
            x
        },
        None => Double::zero(),
    }
}

fn of_factor(label: &str, factor: &Json) -> (res: Row)
    ensures
        res@ == factor_row(label@, factor@),
{
    let path = ["factor"];
    assert(json::path_view(path@) =~= seq!["factor"@]);
    let name = match factor.text_at(&path) {
        Some(s) => s,
        None => text::copy("?"),
    };
    let words = text::join3(label, ": ", name.as_str());
    in_percent(words.as_str(), share_in(factor))
}

fn largest_factors(factors: &Vec<Json>) -> (res: Vec<Row>)
    ensures
        are_largest_factors(json::items_view(factors@), rows_view(res@)),
{
    let ghost all = json::items_view(factors@);
    let mut shares: Vec<Double> = Vec::new();
    let mut i: usize = 0;
    while i < factors.len()
        invariant
            i <= factors@.len(),
            all == json::items_view(factors@),
            shares@ == shares_of(all).take(i as int),
            select::comparable(shares@),
        decreases factors.len() - i,
    {
        shares.push(share_in(&factors[i]));
        i += 1;
        assert(shares@ =~= shares_of(all).take(i as int));
    }
    assert(shares_of(all).take(all.len() as int) =~= shares_of(all));
    let sizes = select::absolute(&shares);
    let order = select::sorted_order(&sizes, true);
    let mut rows: Vec<Row> = Vec::new();
    if order.len() > 0 {
        rows.push(of_factor("Top factor by Euler contribution", &factors[order[0]]));
        if order.len() > 1 {
            rows.push(of_factor("Second factor", &factors[order[1]]));
        }
    }
    assert(rows_view(rows@) =~= factor_rows(all, order@));
    assert(orders_factors(all, order@));
    rows
}

/// The rows for a shock.
pub open spec fn shock_numbers(result: JsonView, regime: Option<Seq<char>>) -> Seq<RowView> {
    let rows = seq![
        rupee_row("Portfolio P&L"@, number_or_zero(result, seq!["portfolio_pnl_inr"@])),
    ] + shocks_under(result, "given_shocks"@, "Given shock: "@, ""@) + shocks_under(
        result,
        "implied_shocks"@,
        "Implied shock: "@,
        " (model-estimated)"@,
    ) + seq![regime_row(regime)];
    match json::double_at(result, seq!["crisis_comparison"@, "portfolio_pnl_inr"@]) {
        Some(x) => rows.push(rupee_row("Crisis-regime P&L"@, x)),
        None => rows,
    }
}

/// Whether `rows` are those for a decomposition.
pub open spec fn are_decomposition_numbers(
    result: JsonView,
    regime: Option<Seq<char>>,
    rows: Seq<RowView>,
) -> bool {
    exists|middle: Seq<RowView>| #[trigger]
        are_factor_rows_of(result, middle) && rows == seq![
            percent_row(
                "Portfolio Vol (annualised)"@,
                number_or_zero(result, seq!["portfolio_vol_annualized"@]),
            ),
        ] + middle + seq![
            percent_row(
                "Specific risk share"@,
                number_or_zero(result, seq!["specific_risk_fraction_of_vol"@]),
            ),
            regime_row(regime),
        ]
}

/// Whether `rows` are those about the factors of a result.
pub open spec fn are_factor_rows_of(result: JsonView, rows: Seq<RowView>) -> bool {
    match result.field("by_factor"@) {
        Some(JsonView::Array(factors)) => are_largest_factors(factors, rows),
        _ => rows == Seq::<RowView>::empty(),
    }
}

/// One more row where there is a number for it.
pub open spec fn percent_if(value: Option<Double>, label: Seq<char>) -> Seq<RowView> {
    match value {
        Some(x) => seq![percent_row(label, x)],
        None => seq![],
    }
}

/// One more row where there is an amount for it.
pub open spec fn rupees_if(value: Option<Double>, label: Seq<char>) -> Seq<RowView> {
    match value {
        Some(x) => seq![rupee_row(label, x)],
        None => seq![],
    }
}

/// The rows for a rebalance, whose tail loss fell by `reduction`.
pub open spec fn rebalance_numbers(result: JsonView, reduction: Double) -> Seq<RowView> {
    let after = json::double_at(result, seq!["stats_after"@, "historical_cvar"@]);
    seq![
        percent_row(
            "CVaR Before"@,
            number_or_zero(result, seq!["stats_before"@, "historical_cvar"@]),
        ),
    ] + percent_if(after, "CVaR After"@) + percent_if(
        match after {
            Some(_) => Some(reduction),
            None => None,
        },
        "CVaR Reduction"@,
    ) + percent_if(json::double_at(result, seq!["turnover"@]), "Turnover Used"@) + rupees_if(
        json::double_at(result, seq!["commission_cost_inr"@]),
        "Commission Cost"@,
    )
}

/// The rows for a performance.
pub open spec fn performance_numbers(result: JsonView) -> Seq<RowView> {
    seq![
        percent_row("Total Return"@, number_or_zero(result, seq!["total_return"@])),
        percent_row("Annualized Return"@, number_or_zero(result, seq!["annualized_return"@])),
        percent_row(
            "Annualized Vol (realized)"@,
            number_or_zero(result, seq!["annualized_vol_realized"@]),
        ),
        percent_row("Max Drawdown"@, number_or_zero(result, seq!["max_drawdown"@])),
    ] + rupees_if(json::double_at(result, seq!["end_value_inr"@]), "End Value"@)
}

/// Whether a row has a label and shows a number behind it.
pub open spec fn shows(row: RowView, label: Seq<char>, x: Double, style: Style) -> bool {
    &&& row.first == seq![PieceView::Text(label)]
    &&& row.second == seq![PieceView::Number(x, style)]
}

/// Whether a result has a number under a name.
pub open spec fn has_number(value: JsonView, name: Seq<char>, x: Double) -> bool {
    value.field(name) is Some && value.field(name)->Some_0.double() == Some(x)
}

/// The key numbers of a performance: its total return, its yearly return, its
/// yearly volatility and its deepest fall in percent, and its value at the end
/// in rupees, each as the result has it.
pub proof fn lemma_performance_numbers(
    result: JsonView,
    total: Double,
    yearly: Double,
    vol: Double,
    fall: Double,
    end: Double,
)
    requires
        has_number(result, "total_return"@, total),
        has_number(result, "annualized_return"@, yearly),
        has_number(result, "annualized_vol_realized"@, vol),
        has_number(result, "max_drawdown"@, fall),
        has_number(result, "end_value_inr"@, end),
    ensures
        performance_numbers(result).len() == 5,
        shows(performance_numbers(result)[0], "Total Return"@, total, Style::Percent(2)),
        shows(performance_numbers(result)[1], "Annualized Return"@, yearly, Style::Percent(2)),
        shows(
            performance_numbers(result)[2],
            "Annualized Vol (realized)"@,
            vol,
            Style::Percent(2),
        ),
        shows(performance_numbers(result)[3], "Max Drawdown"@, fall, Style::Percent(2)),
        shows(performance_numbers(result)[4], "End Value"@, end, Style::Rupees),
{
    json::lemma_one_step(result, "total_return"@);
    json::lemma_one_step(result, "annualized_return"@);
    json::lemma_one_step(result, "annualized_vol_realized"@);
    json::lemma_one_step(result, "max_drawdown"@);
    json::lemma_one_step(result, "end_value_inr"@);
}

/// The key numbers of a rebalance that was solved: the tail loss before and
/// after, by how much it fell, the turnover in percent, and the commission in
/// rupees.
pub proof fn lemma_rebalance_numbers(
    result: JsonView,
    reduction: Double,
    before: Double,
    after: Double,
    turnover: Double,
    cost: Double,
)
    requires
        result.field("stats_before"@) is Some,
        has_number(result.field("stats_before"@)->Some_0, "historical_cvar"@, before),
        result.field("stats_after"@) is Some,
        has_number(result.field("stats_after"@)->Some_0, "historical_cvar"@, after),
        has_number(result, "turnover"@, turnover),
        has_number(result, "commission_cost_inr"@, cost),
    ensures
        rebalance_numbers(result, reduction).len() == 5,
        shows(rebalance_numbers(result, reduction)[0], "CVaR Before"@, before, Style::Percent(2)),
        shows(rebalance_numbers(result, reduction)[1], "CVaR After"@, after, Style::Percent(2)),
        shows(
            rebalance_numbers(result, reduction)[2],
            "CVaR Reduction"@,
            reduction,
            Style::Percent(2),
        ),
        shows(
            rebalance_numbers(result, reduction)[3],
            "Turnover Used"@,
            turnover,
            Style::Percent(2),
        ),
        shows(rebalance_numbers(result, reduction)[4], "Commission Cost"@, cost, Style::Rupees),
{
    json::lemma_two_steps(result, "stats_before"@, "historical_cvar"@);
    json::lemma_two_steps(result, "stats_after"@, "historical_cvar"@);
    json::lemma_one_step(result, "turnover"@);
    json::lemma_one_step(result, "commission_cost_inr"@);
}

/// The key numbers of a shock begin with the result of the portfolio in rupees,
/// go on with the shocks that were given and then those that were implied, and
/// end with the regime, or with the result in a crisis where there is one.
pub proof fn lemma_shock_numbers(
    result: JsonView,
    regime: Option<Seq<char>>,
    pnl: Double,
    crisis: Double,
)
    requires
        has_number(result, "portfolio_pnl_inr"@, pnl),
    ensures
        shows(shock_numbers(result, regime)[0], "Portfolio P&L"@, pnl, Style::Rupees),
        result.field("crisis_comparison"@) is Some && has_number(
            result.field("crisis_comparison"@)->Some_0,
            "portfolio_pnl_inr"@,
            crisis,
        ) ==> shows(
            shock_numbers(result, regime).last(),
            "Crisis-regime P&L"@,
            crisis,
            Style::Rupees,
        ),
        result.field("crisis_comparison"@) is None ==> shock_numbers(result, regime).last().first
            == seq![PieceView::Text("Current regime"@)] && (regime is Some ==> shock_numbers(
            result,
            regime,
        ).last().second == seq![PieceView::Text(regime->Some_0)]),
{
    json::lemma_one_step(result, "portfolio_pnl_inr"@);
    if result.field("crisis_comparison"@) is Some {
        json::lemma_two_steps(result, "crisis_comparison"@, "portfolio_pnl_inr"@);
    } else {
        reveal_with_fuel(JsonView::at, 2);
        assert(json::double_at(result, seq!["crisis_comparison"@, "portfolio_pnl_inr"@]) is None);
    }
}

/// Each shock that has a size is shown under its own name, in the order of the
/// names.
pub proof fn lemma_shock_rows(fields: Fields, head: Seq<char>, tail: Seq<char>, n: int, i: int)
    requires
        0 <= i < n <= fields.len(),
        fields[i].1.field("simple"@) is Some,
        fields[i].1.field("simple"@)->Some_0.double() is Some,
    ensures
        exists|k: int|
            0 <= k < shock_rows(fields, head, tail, n).len() && shows(
                #[trigger] shock_rows(fields, head, tail, n)[k],
                head + fields[i].0 + tail,
                fields[i].1.field("simple"@)->Some_0.double()->Some_0,
                Style::Percent(2),
            ),
    decreases n,
{
    let rows = shock_rows(fields, head, tail, n);
    let before = shock_rows(fields, head, tail, n - 1);
    json::lemma_one_step(fields[i].1, "simple"@);
    if i < n - 1 {
        lemma_shock_rows(fields, head, tail, n - 1, i);
        let k = choose|k: int|
            0 <= k < before.len() && shows(
                #[trigger] before[k],
                head + fields[i].0 + tail,
                fields[i].1.field("simple"@)->Some_0.double()->Some_0,
                Style::Percent(2),
            );
        assert(rows[k] == before[k]);
    } else {
        assert(shows(
            rows[before.len() as int],
            head + fields[i].0 + tail,
            fields[i].1.field("simple"@)->Some_0.double()->Some_0,
            Style::Percent(2),
        ));
    }
}

/// The factor shown first has a share that none exceeds in magnitude, and the
/// one shown second a share that none but the first exceeds.
pub proof fn lemma_largest_factors(factors: Seq<JsonView>, rows: Seq<RowView>)
    requires
        are_largest_factors(factors, rows),
    ensures
        rows.len() == (if factors.len() < 2 {
            factors.len()
        } else {
            2
        }),
        factors.len() > 0 ==> exists|a: int|
            0 <= a < factors.len() && rows[0] == factor_row(
                "Top factor by Euler contribution"@,
                #[trigger] factors[a],
            ) && forall|j: int|
                0 <= j < factors.len() ==> share_of(
                    #[trigger] factors[j],
                ).magnitude_double().rank() <= share_of(factors[a]).magnitude_double().rank(),
        factors.len() > 1 ==> exists|a: int, b: int|
            0 <= a < factors.len() && 0 <= b < factors.len() && a != b && rows[1] == factor_row(
                "Second factor"@,
                #[trigger] factors[b],
            ) && rows[0] == factor_row("Top factor by Euler contribution"@, #[trigger] factors[a])
                && forall|j: int|
                0 <= j < factors.len() && j != a ==> share_of(
                    #[trigger] factors[j],
                ).magnitude_double().rank() <= share_of(factors[b]).magnitude_double().rank(),
{
    let order = choose|order: Seq<usize>| #[trigger]
        orders_factors(factors, order) && rows == factor_rows(factors, order);
    let sizes = select::magnitudes(shares_of(factors));
    select::lemma_sorted_order(sizes, true, order);
    if factors.len() > 0 {
        let a = order[0] as int;
        assert forall|j: int| 0 <= j < factors.len() implies share_of(
            #[trigger] factors[j],
        ).magnitude_double().rank() <= share_of(factors[a]).magnitude_double().rank() by {
            assert(select::is_listed(order, j));
            let p = choose|p: int| 0 <= p < order.len() && #[trigger] order[p] == j;
            assert(sizes[j] == share_of(factors[j]).magnitude_double());
            assert(sizes[a] == share_of(factors[a]).magnitude_double());
            if p > 0 {
                assert(sizes[order[p] as int].rank() <= sizes[order[0] as int].rank());
            }
        }
        assert(rows[0] == factor_row("Top factor by Euler contribution"@, factors[a]));
        if factors.len() > 1 {
            let b = order[1] as int;
            assert(order[0] != order[1]);
            assert forall|j: int| 0 <= j < factors.len() && j != a implies share_of(
                #[trigger] factors[j],
            ).magnitude_double().rank() <= share_of(factors[b]).magnitude_double().rank() by {
                assert(select::is_listed(order, j));
                let p = choose|p: int| 0 <= p < order.len() && #[trigger] order[p] == j;
                assert(sizes[j] == share_of(factors[j]).magnitude_double());
                assert(sizes[b] == share_of(factors[b]).magnitude_double());
                if p > 1 {
                    assert(sizes[order[p] as int].rank() <= sizes[order[1] as int].rank());
                }
            }
            assert(rows[1] == factor_row("Second factor"@, factors[b]));
        }
    }
}

/// The share of a factor is what it states under its name for it, and a factor
/// is shown by the name it states.
pub proof fn lemma_factor_row(label: Seq<char>, factor: JsonView, name: Seq<char>, x: Double)
    requires
        has_number(factor, "fraction_of_vol"@, x),
        !x.nan(),
        factor.field("factor"@) == Some(JsonView::Text(name)),
    ensures
        shows(factor_row(label, factor), label + ": "@ + name, x, Style::Percent(2)),
{
    json::lemma_one_step(factor, "fraction_of_vol"@);
    reveal_with_fuel(JsonView::at, 2);
    assert(seq!["factor"@].drop_first() =~= seq![]);
}

/// Whether `rows` are the key numbers of a result.
pub open spec fn are_key_numbers(
    experiment: Seq<char>,
    result: Option<JsonView>,
    regime: Option<Seq<char>>,
    reduction: Double,
    rows: Seq<RowView>,
) -> bool {
    match result {
        None => rows == Seq::<RowView>::empty(),
        Some(r) => if experiment == "FactorShock"@ {
            rows == shock_numbers(r, regime)
        } else if experiment == "RiskDecomposition"@ {
            are_decomposition_numbers(r, regime, rows)
        } else if experiment == "CvarRebalance"@ {
            rows == rebalance_numbers(r, reduction)
        } else if experiment == "PortfolioPerformance"@ {
            rows == performance_numbers(r)
        } else {
            rows == Seq::<RowView>::empty()
        },
    }
}

fn one_number(rows: &mut Vec<Row>, label: &str, result: &Json, name: &str)
    ensures
        rows_view(final(rows)@) == rows_view(old(rows)@).push(
            percent_row(label@, number_or_zero(result@, seq![name@])),
        ),
{
    let path = [name];
    assert(json::path_view(path@) =~= seq![name@]);
    let row = in_percent(label, or_zero(result, &path));
    let ghost said = row@;
    rows.push(row);
    assert(rows_view(rows@) =~= rows_view(old(rows)@).push(said));
}

fn one_percent_if(rows: &mut Vec<Row>, label: &str, value: Option<Double>)
    ensures
        rows_view(final(rows)@) == rows_view(old(rows)@) + percent_if(value, label@),
{
    if let Some(x) = value {
        rows.push(in_percent(label, x));
    }
    assert(rows_view(rows@) =~= rows_view(old(rows)@) + percent_if(value, label@));
}

fn one_amount_if(rows: &mut Vec<Row>, label: &str, value: Option<Double>)
    ensures
        rows_view(final(rows)@) == rows_view(old(rows)@) + rupees_if(value, label@),
{
    if let Some(x) = value {
        rows.push(in_rupees(label, x));
    }
    assert(rows_view(rows@) =~= rows_view(old(rows)@) + rupees_if(value, label@));
}

fn for_shock(result: &Json, regime: &Option<String>) -> (rows: Vec<Row>)
    ensures
        rows_view(rows@) == shock_numbers(
            result@,
            match regime {
                Some(l) => Some(l@),
                None => None,
            },
        ),
{
    let mut rows: Vec<Row> = Vec::new();
    let path = ["portfolio_pnl_inr"];
    assert(json::path_view(path@) =~= seq!["portfolio_pnl_inr"@]);
    rows.push(in_rupees("Portfolio P&L", or_zero(result, &path)));
    assert(rows_view(rows@) =~= seq![
        rupee_row("Portfolio P&L"@, number_or_zero(result@, seq!["portfolio_pnl_inr"@])),
    ]);
    push_shocks(&mut rows, result, "given_shocks", "Given shock: ", "");
    push_shocks(&mut rows, result, "implied_shocks", "Implied shock: ", " (model-estimated)");
    let ghost before = rows_view(rows@);
    let row = of_regime(regime);
    let ghost said = row@;
    rows.push(row);
    assert(rows_view(rows@) =~= before + seq![said]);
    let ghost before = rows_view(rows@);
    let crisis = ["crisis_comparison", "portfolio_pnl_inr"];
    assert(json::path_view(crisis@) =~= seq!["crisis_comparison"@, "portfolio_pnl_inr"@]);
    let value = result.double_at(&crisis);
    one_amount_if(&mut rows, "Crisis-regime P&L", value);
    if let Some(x) = value {
        assert(rows_view(rows@) =~= before.push(rupee_row("Crisis-regime P&L"@, x)));
    } else {
        assert(rows_view(rows@) =~= before);
    }
    rows
}

fn for_decomposition(result: &Json, regime: &Option<String>) -> (rows: Vec<Row>)
    ensures
        are_decomposition_numbers(
            result@,
            match regime {
                Some(l) => Some(l@),
                None => None,
            },
            rows_view(rows@),
        ),
{
    let mut rows: Vec<Row> = Vec::new();
    assert(rows_view(rows@) =~= seq![]);
    one_number(&mut rows, "Portfolio Vol (annualised)", result, "portfolio_vol_annualized");
    let ghost first = rows_view(rows@);
    assert(first =~= seq![first[0]]);
    let mut middle: Vec<Row> = Vec::new();
    assert(rows_view(middle@) =~= Seq::empty());
    if let Some(Json::Array(factors)) = result.get("by_factor") {
        proof {
            json::lemma_array_view(*factors);
        }
        middle = largest_factors(factors);
    }
    let ghost between = rows_view(middle@);
    assert(are_factor_rows_of(result@, between));
    rows.append(&mut middle);
    assert(rows_view(rows@) =~= first + between);
    one_number(&mut rows, "Specific risk share", result, "specific_risk_fraction_of_vol");
    let ghost before = rows_view(rows@);
    let row = of_regime(regime);
    let ghost said = row@;
    rows.push(row);
    assert(rows_view(rows@) =~= before.push(said));
    assert(rows_view(rows@) =~= first + between + seq![before.last(), said]);
    rows
}

fn for_rebalance(result: &Json, reduction: Double) -> (rows: Vec<Row>)
    ensures
        rows_view(rows@) == rebalance_numbers(result@, reduction),
{
    let mut rows: Vec<Row> = Vec::new();
    let before = ["stats_before", "historical_cvar"];
    assert(json::path_view(before@) =~= seq!["stats_before"@, "historical_cvar"@]);
    rows.push(in_percent("CVaR Before", or_zero(result, &before)));
    assert(rows_view(rows@) =~= seq![
        percent_row(
            "CVaR Before"@,
            number_or_zero(result@, seq!["stats_before"@, "historical_cvar"@]),
        ),
    ]);
    let after = ["stats_after", "historical_cvar"];
    assert(json::path_view(after@) =~= seq!["stats_after"@, "historical_cvar"@]);
    let value = result.double_at(&after);
    one_percent_if(&mut rows, "CVaR After", value);
    one_percent_if(
        &mut rows,
        "CVaR Reduction",
        match value {
            Some(_) => Some(reduction),
            None => None,
        },
    );
    let turnover = ["turnover"];
    assert(json::path_view(turnover@) =~= seq!["turnover"@]);
    one_percent_if(&mut rows, "Turnover Used", result.double_at(&turnover));
    let commission = ["commission_cost_inr"];
    assert(json::path_view(commission@) =~= seq!["commission_cost_inr"@]);
    one_amount_if(&mut rows, "Commission Cost", result.double_at(&commission));
    rows
}

fn for_performance(result: &Json) -> (rows: Vec<Row>)
    ensures
        rows_view(rows@) == performance_numbers(result@),
{
    let mut rows: Vec<Row> = Vec::new();
    assert(rows_view(rows@) =~= seq![]);
    one_number(&mut rows, "Total Return", result, "total_return");
    one_number(&mut rows, "Annualized Return", result, "annualized_return");
    one_number(&mut rows, "Annualized Vol (realized)", result, "annualized_vol_realized");
    one_number(&mut rows, "Max Drawdown", result, "max_drawdown");
    let ghost four = rows_view(rows@);
    assert(four =~= seq![four[0], four[1], four[2], four[3]]);
    let value = ["end_value_inr"];
    assert(json::path_view(value@) =~= seq!["end_value_inr"@]);
    one_amount_if(&mut rows, "End Value", result.double_at(&value));
    rows
}

/// The key numbers of a result. `reduction` is by how much the tail loss of a
/// rebalance fell.
pub fn key_numbers(
    experiment: &str,
    result: Option<&Json>,
    regime: &Option<String>,
    reduction: Double,
) -> (rows: Vec<Row>)
    ensures
        are_key_numbers(
            experiment@,
            match result {
                Some(r) => Some(r@),
                None => None,
            },
            match regime {
                Some(l) => Some(l@),
                None => None,
            },
            reduction,
            rows_view(rows@),
        ),
{
    match result {
        Some(r) => {
            if text::same(experiment, "FactorShock") {
                return for_shock(r, regime);
            }
            if text::same(experiment, "RiskDecomposition") {
                return for_decomposition(r, regime);
            }
            if text::same(experiment, "CvarRebalance") {
                return for_rebalance(r, reduction);
            }
            if text::same(experiment, "PortfolioPerformance") {
                return for_performance(r);
            }
        },
        None => {},
    }
    let rows: Vec<Row> = Vec::new();
    assert(rows_view(rows@) =~= Seq::empty());
    rows
}

// ---------------------------------------------------------------------------
// The page
// ---------------------------------------------------------------------------

/// The fonts of a page.
#[derive(Clone, Copy, Debug, PartialEq, Eq, Structural)]
pub enum Font {
    Regular,
    Bold,
    Oblique,
}

/// One mark on a page.
#[derive(Debug)]
pub enum Mark {
    /// A text that begins at `x`.
    Text { x: i128, y: i128, text: Message, font: Font, size: u8 },
    /// A text that ends at `right`.
    TextRight { right: i128, y: i128, text: Message, font: Font, size: u8 },
    /// A line across the page.
    Rule { y: i128 },
}

/// What a mark shows.
pub enum MarkView {
    Text { x: int, y: int, text: Seq<PieceView>, font: Font, size: u8 },
    TextRight { right: int, y: int, text: Seq<PieceView>, font: Font, size: u8 },
    Rule { y: int },
}

impl View for Mark {
    type V = MarkView;

    open spec fn view(&self) -> MarkView {
        match self {
            Mark::Text { x, y, text, font, size } => MarkView::Text {
                x: *x as int,
                y: *y as int,
                text: text@,
                font: *font,
                size: *size,
            },
            Mark::TextRight { right, y, text, font, size } => MarkView::TextRight {
                right: *right as int,
                y: *y as int,
                text: text@,
                font: *font,
                size: *size,
            },
            Mark::Rule { y } => MarkView::Rule { y: *y as int },
        }
    }
}

/// What marks show.
pub open spec fn marks_view(marks: Seq<Mark>) -> Seq<MarkView> {
    marks.map_values(|m: Mark| m@)
}

/// A page on which marks are made from the top to the bottom.
pub struct Sheet {
    pub marks: Seq<MarkView>,
    /// How far above the bottom the next mark is made.
    pub y: int,
}

impl Sheet {
    /// An empty page.
    pub open spec fn blank() -> Sheet {
        Sheet { marks: seq![], y: TOP as int }
    }

    /// A text that begins at `x`.
    pub open spec fn text(self, x: int, text: Seq<PieceView>, font: Font, size: u8) -> Sheet {
        Sheet { marks: self.marks.push(MarkView::Text { x, y: self.y, text, font, size }), ..self }
    }

    /// A text that ends at the right margin.
    pub open spec fn text_right(self, text: Seq<PieceView>, font: Font, size: u8) -> Sheet {
        Sheet {
            marks: self.marks.push(
                MarkView::TextRight { right: RIGHT as int, y: self.y, text, font, size },
            ),
            ..self
        }
    }

    /// A line across the page.
    pub open spec fn rule(self) -> Sheet {
        Sheet { marks: self.marks.push(MarkView::Rule { y: self.y }), ..self }
    }

    /// Further down.
    pub open spec fn down(self, by: int) -> Sheet {
        Sheet { y: self.y - by, ..self }
    }

    /// At a height.
    pub open spec fn at(self, y: int) -> Sheet {
        Sheet { y, ..self }
    }

    /// A heading.
    pub open spec fn heading(self, text: Seq<char>) -> Sheet {
        self.text(LEFT as int, message::plain(text), Font::Bold, 12).down(12)
    }

    /// The first `n` lines of a text, one below the other.
    pub open spec fn lines(self, lines: Seq<Seq<char>>, n: int) -> Sheet
        decreases n,
    {
        if n <= 0 {
            self
        } else {
            self.lines(lines, n - 1).text(
                LEFT as int,
                message::plain(lines[n - 1]),
                Font::Regular,
                10,
            ).down(10)
        }
    }

    /// Three texts side by side.
    pub open spec fn across(self, row: RowView, font: Font) -> Sheet {
        self.text(LEFT as int, row.first, font, 9).text(
            SECOND_COLUMN as int,
            row.second,
            font,
            9,
        ).text(THIRD_COLUMN as int, row.third, font, 9)
    }

    /// The first `n` rows of a table.
    pub open spec fn rows(self, rows: Seq<RowView>, n: int) -> Sheet
        decreases n,
    {
        if n <= 0 {
            self
        } else {
            self.rows(rows, n - 1).across(rows[n - 1], Font::Regular).down(9)
        }
    }

    /// A table with its heads.
    pub open spec fn table(
        self,
        first: Seq<char>,
        second: Seq<char>,
        third: Seq<char>,
        rows: Seq<RowView>,
    ) -> Sheet {
        let heads = RowView {
            first: message::plain(first),
            second: message::plain(second),
            third: message::plain(third),
        };
        self.across(heads, Font::Bold).down(10).rows(rows, rows.len() as int)
    }
}

/// How far down a page can go.
pub const LOWEST: i128 = -0x1_0000_0000_0000_0000_0000_0000;

#[derive(Debug)]
struct Page {
    marks: Vec<Mark>,
    y: i128,
}

impl View for Page {
    type V = Sheet;

    closed spec fn view(&self) -> Sheet {
        Sheet { marks: marks_view(self.marks@), y: self.y as int }
    }
}

impl Page {
    fn new() -> (res: Page)
        ensures
            res@ == Sheet::blank(),
    {
        let res = Page { marks: Vec::new(), y: TOP };
        assert(res@.marks =~= Sheet::blank().marks);
        res
    }

    fn push(&mut self, mark: Mark)
        ensures
            final(self)@ == (Sheet { marks: old(self)@.marks.push(mark@), ..old(self)@ }),
    {
        let ghost shown = mark@;
        self.marks.push(mark);
        assert(self@.marks =~= old(self)@.marks.push(shown));
    }

    fn text(&mut self, x: i128, text: Message, font: Font, size: u8)
        ensures
            final(self)@ == old(self)@.text(x as int, text@, font, size),
    {
        let y: i128 = self.y;
        self.push(Mark::Text { x, y, text, font, size });
    }

    fn words(&mut self, x: i128, text: &str, font: Font, size: u8)
        ensures
            final(self)@ == old(self)@.text(x as int, message::plain(text@), font, size),
    {
        self.text(x, Message::of(text), font, size);
    }

    fn text_right(&mut self, text: Message, font: Font, size: u8)
        ensures
            final(self)@ == old(self)@.text_right(text@, font, size),
    {
        let y: i128 = self.y;
        self.push(Mark::TextRight { right: RIGHT, y, text, font, size });
    }

    fn rule(&mut self)
        ensures
            final(self)@ == old(self)@.rule(),
    {
        let y: i128 = self.y;
        self.push(Mark::Rule { y });
    }

    fn down(&mut self, by: i128)
        requires
            0 <= by <= 100,
            LOWEST <= old(self)@.y <= TOP,
        ensures
            final(self)@ == old(self)@.down(by as int),
    {
        self.y = self.y - by;
    }

    fn at(&mut self, y: i128)
        ensures
            final(self)@ == old(self)@.at(y as int),
    {
        self.y = y;
    }

    fn heading(&mut self, text: &str)
        requires
            LOWEST <= old(self)@.y <= TOP,
        ensures
            final(self)@ == old(self)@.heading(text@),
    {
        self.words(LEFT, text, Font::Bold, 12);
        self.down(12);
    }

    fn lines(&mut self, lines: &Vec<String>)
        requires
            -10000 <= old(self)@.y <= TOP,
        ensures
            final(self)@ == old(self)@.lines(text::views(lines@), lines@.len() as int),
            old(self)@.y - 10 * usize::MAX <= final(self)@.y <= old(self)@.y,
    {
        let ghost all = text::views(lines@);
        let mut i: usize = 0;
        while i < lines.len()
            invariant
                i <= lines@.len(),
                all == text::views(lines@),
                -10000 <= old(self)@.y <= TOP,
                self@ == old(self)@.lines(all, i as int),
                self@.y == old(self)@.y - 10 * i,
            decreases lines.len() - i,
        {
            self.words(LEFT, lines[i].as_str(), Font::Regular, 10);
            self.down(10);
            i += 1;
        }
    }

    fn across(&mut self, first: Message, second: Message, third: Message, font: Font)
        ensures
            final(self)@ == old(self)@.across(
                (RowView { first: first@, second: second@, third: third@ }),
                font,
            ),
    {
        self.text(LEFT, first, font, 9);
        self.text(SECOND_COLUMN, second, font, 9);
        self.text(THIRD_COLUMN, third, font, 9);
    }

    fn table(&mut self, first: &str, second: &str, third: &str, rows: &Vec<Row>)
        requires
            -0x100_0000_0000_0000_0000_0000 <= old(self)@.y <= TOP,
        ensures
            final(self)@ == old(self)@.table(first@, second@, third@, rows_view(rows@)),
            old(self)@.y - 10 - 9 * usize::MAX <= final(self)@.y <= old(self)@.y,
    {
        let ghost all = rows_view(rows@);
        self.across(Message::of(first), Message::of(second), Message::of(third), Font::Bold);
        self.down(10);
        let ghost start = self@;
        let mut i: usize = 0;
        while i < rows.len()
            invariant
                i <= rows@.len(),
                all == rows_view(rows@),
                -0x100_0000_0000_0000_0000_0000 - 10 <= start.y <= TOP,
                self@ == start.rows(all, i as int),
                self@.y == start.y - 9 * i,
            decreases rows.len() - i,
        {
            let row = &rows[i];
            assert(all[i as int] == row@);
            self.across(
                row.first.duplicate(),
                row.second.duplicate(),
                row.third.duplicate(),
                Font::Regular,
            );
            self.down(9);
            i += 1;
        }
    }
}

/// The line about the model of a trace.
pub open spec fn model_line(trace: EvidenceTrace) -> Seq<PieceView> {
    let params = trace.model_params;
    let line = seq![
        PieceView::Text("Model: window="@),
        PieceView::Text(text::decimal(params.window_periods as nat)),
        PieceView::Text(" periods, frequency="@),
        PieceView::Text(params.frequency.json_name()),
        PieceView::Text(", shrinkage_intensity="@),
        PieceView::Number(params.shrinkage_intensity, Style::Fixed(4)),
    ];
    match routes::regime_label(params.regime_state) {
        Some(label) => line.push(PieceView::Text(", regime="@)).push(PieceView::Text(label)),
        None => line,
    }
}

fn about_model(trace: &EvidenceTrace, regime: &Option<String>) -> (res: Message)
    requires
        match regime {
            Some(l) => routes::regime_label(trace.model_params.regime_state) == Some(l@),
            None => routes::regime_label(trace.model_params.regime_state) is None,
        },
    ensures
        res@ == model_line(*trace),
{
    let params = &trace.model_params;
    let mut line = Message::of("Model: window=");
    line.count(params.window_periods);
    line.text(" periods, frequency=");
    line.text(params.frequency.name());
    line.text(", shrinkage_intensity=");
    line.number(params.shrinkage_intensity, Style::Fixed(4));
    if let Some(label) = regime {
        line.text(", regime=");
        line.text(label.as_str());
    }
    assert(line@ =~= model_line(*trace));
    line
}

/// The days filled, over the first `n` series.
pub open spec fn filled_days(series: Seq<SeriesQuality>, n: int) -> int
    decreases n,
{
    if n <= 0 {
        0
    } else {
        filled_days(series, n - 1) + series[n - 1].forward_filled_days
    }
}

/// The days dropped, over the first `n` series.
pub open spec fn dropped_days(series: Seq<SeriesQuality>, n: int) -> int
    decreases n,
{
    if n <= 0 {
        0
    } else {
        dropped_days(series, n - 1) + series[n - 1].dropped_days
    }
}

proof fn lemma_sums_grow(series: Seq<SeriesQuality>, n: int, all: int)
    requires
        n <= all,
    ensures
        filled_days(series, n) <= filled_days(series, all),
        dropped_days(series, n) <= dropped_days(series, all),
    decreases all - n,
{
    if n < all && all > 0 {
        lemma_sums_grow(series, n, all - 1);
    }
}

/// One more series adds its own filled days to the filled ones and its own
/// dropped days to the dropped ones.
pub proof fn lemma_one_more_series(series: Seq<SeriesQuality>, n: int)
    requires
        0 <= n < series.len(),
    ensures
        filled_days(series, 0) == 0 && dropped_days(series, 0) == 0,
        filled_days(series, n + 1) - filled_days(series, n) == series[n].forward_filled_days,
        dropped_days(series, n + 1) - dropped_days(series, n) == series[n].dropped_days,
{
}

/// Whether the totals over all series fit into a machine word.
pub open spec fn totals_fit(quality: DataQuality) -> bool {
    let n = quality.per_series@.len() as int;
    &&& filled_days(quality.per_series@, n) <= usize::MAX
    &&& dropped_days(quality.per_series@, n) <= usize::MAX
}

/// The line about the data of a trace.
pub open spec fn data_line(quality: DataQuality) -> Seq<PieceView> {
    let n = quality.per_series@.len() as int;
    seq![
        PieceView::Text("Data quality: "@),
        PieceView::Text(dates::date_text(quality.date_range_start as int)),
        PieceView::Text(" to "@),
        PieceView::Text(dates::date_text(quality.date_range_end as int)),
        PieceView::Text(" ("@),
        PieceView::Text(text::decimal(quality.trading_days as nat)),
        PieceView::Text(" trading days), "@),
        PieceView::Text(text::decimal(filled_days(quality.per_series@, n) as nat)),
        PieceView::Text(" forward-filled, "@),
        PieceView::Text(text::decimal(dropped_days(quality.per_series@, n) as nat)),
        PieceView::Text(" dropped"@),
    ]
}

fn about_data(quality: &DataQuality) -> (res: Message)
    requires
        quality.valid(),
        totals_fit(*quality),
    ensures
        res@ == data_line(*quality),
{
    let mut filled: usize = 0;
    let mut dropped: usize = 0;
    let mut i: usize = 0;
    let ghost n = quality.per_series@.len() as int;
    while i < quality.per_series.len()
        invariant
            i <= quality.per_series@.len(),
            n == quality.per_series@.len(),
            totals_fit(*quality),
            filled == filled_days(quality.per_series@, i as int),
            dropped == dropped_days(quality.per_series@, i as int),
        decreases quality.per_series.len() - i,
    {
        proof {
            lemma_sums_grow(quality.per_series@, i as int + 1, n);
        }
        filled += quality.per_series[i].forward_filled_days;
        dropped += quality.per_series[i].dropped_days;
        i += 1;
    }
    let start = trace::day_text(quality.date_range_start);
    let end = trace::day_text(quality.date_range_end);
    let mut line = Message::of("Data quality: ");
    line.text(start.as_str());
    line.text(" to ");
    line.text(end.as_str());
    line.text(" (");
    line.count(quality.trading_days);
    line.text(" trading days), ");
    line.count(filled);
    line.text(" forward-filled, ");
    line.count(dropped);
    line.text(" dropped");
    assert(line@ =~= data_line(*quality));
    line
}

/// The line about the data names its first and its last day, how many there
/// are, and then the days that were filled and those that were dropped.
pub proof fn lemma_data_line(quality: DataQuality)
    ensures
        data_line(quality)[1] == PieceView::Text(
            dates::date_text(quality.date_range_start as int),
        ),
        data_line(quality)[3] == PieceView::Text(dates::date_text(quality.date_range_end as int)),
        data_line(quality)[5] == PieceView::Text(text::decimal(quality.trading_days as nat)),
        data_line(quality)[7] == PieceView::Text(
            text::decimal(
                filled_days(quality.per_series@, quality.per_series@.len() as int) as nat,
            ),
        ),
        data_line(quality)[9] == PieceView::Text(
            text::decimal(
                dropped_days(quality.per_series@, quality.per_series@.len() as int) as nat,
            ),
        ),
{
}

/// A check is shown with its name, its detail, and a tick where it was passed
/// and a cross where it was not.
pub proof fn lemma_check_rows(checks: Seq<InvariantCheck>, i: int)
    requires
        0 <= i < checks.len(),
    ensures
        check_rows(checks).len() == checks.len(),
        check_rows(checks)[i].first == seq![PieceView::Text(checks[i].name@)],
        check_rows(checks)[i].third == checks[i].detail@,
        checks[i].passed ==> check_rows(checks)[i].second == seq![PieceView::Text("\u{2713}"@)],
        !checks[i].passed ==> check_rows(checks)[i].second == seq![PieceView::Text("\u{2717}"@)],
{
}

/// The row about a checked identity.
pub open spec fn check_row(check: InvariantCheck) -> RowView {
    RowView {
        first: message::plain(check.name@),
        second: message::plain(
            if check.passed {
                "\u{2713}"@
            } else {
                "\u{2717}"@
            },
        ),
        third: check.detail@,
    }
}

/// The rows about checked identities.
pub open spec fn check_rows(checks: Seq<InvariantCheck>) -> Seq<RowView> {
    checks.map_values(|c: InvariantCheck| check_row(c))
}

fn about_checks(checks: &Vec<InvariantCheck>) -> (res: Vec<Row>)
    ensures
        rows_view(res@) == check_rows(checks@),
{
    let mut rows: Vec<Row> = Vec::new();
    let mut i: usize = 0;
    while i < checks.len()
        invariant
            i <= checks@.len(),
            rows@.len() == i,
            forall|k: int| 0 <= k < i ==> (#[trigger] rows@[k])@ == check_row(checks@[k]),
        decreases checks.len() - i,
    {
        let check = &checks[i];
        let second = if check.passed {
            Message::of("\u{2713}")
        } else {
            Message::of("\u{2717}")
        };
        rows.push(
            Row { first: Message::of(check.name.as_str()), second, third: check.detail.duplicate() },
        );
        i += 1;
    }
    assert(rows_view(rows@) =~= check_rows(checks@));
    rows
}

/// The head of the page.
pub open spec fn header(experiment: Seq<char>, generated_at: Seq<char>) -> Sheet {
    Sheet::blank().text(
        LEFT as int,
        message::plain("Drift Risk Copilot"@),
        Font::Bold,
        18,
    ).text_right(
        message::plain(experiment + " | generated "@ + generated_at),
        Font::Regular,
        10,
    ).down(14).rule().down(16)
}

/// The section with the narration, whose lines are given; a result without
/// one says so.
pub open spec fn narrated(sheet: Sheet, narration: Option<Seq<Seq<char>>>, warned: bool) -> Sheet {
    let start = sheet.heading("Analysis"@);
    let body = match narration {
        Some(lines) => if warned {
            start.lines(lines, lines.len() as int).down(4).text(
                LEFT as int,
                message::plain("[!] Some numbers in this explanation could not be verified."@),
                Font::Oblique,
                9,
            ).down(10)
        } else {
            start.lines(lines, lines.len() as int)
        },
        None => start.text(
            LEFT as int,
            message::plain("No narrative \u{2014} direct experiment result."@),
            Font::Oblique,
            10,
        ).down(10),
    };
    body.down(8)
}

/// The section with the key numbers.
pub open spec fn numbered(sheet: Sheet, rows: Seq<RowView>) -> Sheet {
    sheet.heading("Key Numbers"@).table("Metric"@, "Value"@, "Unit"@, rows).down(8)
}

/// The section with the evidence.
pub open spec fn evidenced(sheet: Sheet, trace: EvidenceTrace) -> Sheet {
    let lines = sheet.heading("Evidence Trace"@).text(
        LEFT as int,
        model_line(trace),
        Font::Regular,
        9,
    ).down(10).text(LEFT as int, data_line(trace.data_quality), Font::Regular, 9).down(12);
    if trace.invariants@.len() == 0 {
        lines
    } else {
        lines.table("Invariant"@, "Passed"@, "Detail"@, check_rows(trace.invariants@))
    }
}

/// The foot of the page.
pub open spec fn footed(sheet: Sheet) -> Sheet {
    sheet.at(40).rule().at(30).text(
        LEFT as int,
        message::plain("Generated by Drift Risk Copilot"@),
        Font::Regular,
        9,
    ).text_right(
        message::plain(
            "Full-history smoothed regime \u{2014} not suitable for live trading signals."@,
        ),
        Font::Regular,
        9,
    )
}

/// Whether `marks` are the report on a trace.
pub open spec fn is_report(
    trace: EvidenceTrace,
    narration: Option<Seq<Seq<char>>>,
    warned: bool,
    generated_at: Seq<char>,
    reduction: Double,
    marks: Seq<MarkView>,
) -> bool {
    exists|rows: Seq<RowView>| #[trigger]
        are_key_numbers(
            trace.experiment@,
            trace.outputs@.field("result"@),
            routes::regime_label(trace.model_params.regime_state),
            reduction,
            rows,
        ) && marks == footed(
            evidenced(
                numbered(narrated(header(trace.experiment@, generated_at), narration, warned), rows),
                trace,
            ),
        ).marks
}

/// Lays out the report on a trace: its head, the narration in lines that fit
/// the page, the key numbers, the evidence and the foot. `reduction` is by how
/// much the tail loss of a rebalance fell.
pub fn render_report(
    trace: &EvidenceTrace,
    narration: &Option<Vec<String>>,
    grounding_warnings: &Vec<String>,
    generated_at: &str,
    reduction: Double,
) -> (marks: Vec<Mark>)
    requires
        trace.data_quality.valid(),
        totals_fit(trace.data_quality),
    ensures
        is_report(
            *trace,
            match narration {
                Some(lines) => Some(text::views(lines@)),
                None => None,
            },
            grounding_warnings@.len() > 0,
            generated_at@,
            reduction,
            marks_view(marks@),
        ),
{
    let mut page = Page::new();
    page.words(LEFT, "Drift Risk Copilot", Font::Bold, 18);
    let right = text::join3(trace.experiment.as_str(), " | generated ", generated_at);
    page.text_right(Message::of(right.as_str()), Font::Regular, 10);
    page.down(14);
    page.rule();
    page.down(16);
    assert(page@ == header(trace.experiment@, generated_at@));

    page.heading("Analysis");
    match narration {
        Some(lines) => {
            page.lines(lines);
            if grounding_warnings.len() > 0 {
                page.down(4);
                page.words(
                    LEFT,
                    "[!] Some numbers in this explanation could not be verified.",
                    Font::Oblique,
                    9,
                );
                page.down(10);
            }
        },
        None => {
            page.words(
                LEFT,
                "No narrative \u{2014} direct experiment result.",
                Font::Oblique,
                10,
            );
            page.down(10);
        },
    }
    page.down(8);

    let regime = routes::label_in(&trace.model_params.regime_state);
    let rows = key_numbers(
        trace.experiment.as_str(),
        trace.outputs.get("result"),
        &regime,
        reduction,
    );
    page.heading("Key Numbers");
    page.table("Metric", "Value", "Unit", &rows);
    page.down(8);

    page.heading("Evidence Trace");
    page.text(LEFT, about_model(trace, &regime), Font::Regular, 9);
    page.down(10);
    page.text(LEFT, about_data(&trace.data_quality), Font::Regular, 9);
    page.down(12);
    let checks = about_checks(&trace.invariants);
    if checks.len() > 0 {
        page.table("Invariant", "Passed", "Detail", &checks);
    }

    page.at(40);
    page.rule();
    page.at(30);
    page.words(LEFT, "Generated by Drift Risk Copilot", Font::Regular, 9);
    page.text_right(
        Message::of("Full-history smoothed regime \u{2014} not suitable for live trading signals."),
        Font::Regular,
        9,
    );
    page.marks
}

} // verus!
