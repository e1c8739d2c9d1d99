//! Whether every number that a narration states is found in the evidence, and
//! what happens where one is not.
//!
//! A narration is searched for numbers ([`number_tokens`]); their values, and
//! how far each lies from every number of the evidence, are computed from what
//! is found; [`check_grounding`] then sorts the numbers, and [`after_check`]
//! decides whether the narration stands or is asked for again.

use vstd::prelude::*;

use crate::double::Double;
use crate::json::{self, Json, JsonView};
use crate::text;

verus! {

/// The bit pattern of `0.02`: how far, relative to the larger of the two, a
/// number may lie from one of the evidence.
pub const RELATIVE_TOLERANCE_BITS: u64 = 0x3f94_7ae1_47ae_147b;

/// How often a narration is asked for again.
pub const MAX_RETRIES: u32 = 2;

/// The numbers that a narration can state: an amount in lakh, a percentage, or
/// a plain number, tried in this order at every place. A minus sign is the
/// ASCII one or the Unicode one, and digits are grouped by commas.
pub const NUMBER_PATTERN: &'static str =
    "(?x) (?P<lakh> (?:\u{20b9}\\s*)? (?P<lakh_num>[-\u{2212}]?[\\d,]+(?:\\.\\d+)?) \\s* lakh\\b ) | (?P<pct> (?P<pct_num>[-\u{2212}]?[\\d,]+(?:\\.\\d+)?) \\s* % ) | (?P<plain> (?:\u{20b9}\\s*)? (?P<plain_num>[-\u{2212}]?[\\d,]+(?:\\.\\d+)?) )";

/// A piece of a text and the byte at which it starts.
#[derive(Debug)]
pub struct Span {
    pub start: usize,
    pub text: String,
}

/// A match of [`NUMBER_PATTERN`], group by group.
#[derive(Debug)]
pub struct NumberMatch {
    pub lakh: Option<Span>,
    pub lakh_digits: Option<Span>,
    pub percent: Option<Span>,
    pub percent_digits: Option<Span>,
    pub plain: Option<Span>,
    pub plain_digits: Option<Span>,
}

/// What a [`Span`] holds.
pub type SpanView = (int, Seq<char>);

/// What a [`NumberMatch`] holds.
pub struct MatchView {
    pub lakh: Option<SpanView>,
    pub lakh_digits: Option<SpanView>,
    pub percent: Option<SpanView>,
    pub percent_digits: Option<SpanView>,
    pub plain: Option<SpanView>,
    pub plain_digits: Option<SpanView>,
}

/// What an optional [`Span`] holds.
pub open spec fn span_view(span: Option<Span>) -> Option<SpanView> {
    match span {
        Some(s) => Some((s.start as int, s.text@)),
        None => None,
    }
}

impl View for NumberMatch {
    type V = MatchView;

    open spec fn view(&self) -> MatchView {
        MatchView {
            lakh: span_view(self.lakh),
            lakh_digits: span_view(self.lakh_digits),
            percent: span_view(self.percent),
            percent_digits: span_view(self.percent_digits),
            plain: span_view(self.plain),
            plain_digits: span_view(self.plain_digits),
        }
    }
}

/// What a list of matches holds.
pub open spec fn matches_view(matches: Seq<NumberMatch>) -> Seq<MatchView> {
    matches.map_values(|m: NumberMatch| m@)
}

/// The name of what a pattern finds in a text.
pub uninterp spec fn captures_of(pattern: Seq<char>, text: Seq<char>) -> Seq<MatchView>;

/// Whether one of the three kinds was found, together with its digits.
pub open spec fn has_one_kind(m: MatchView) -> bool {
    ||| m.lakh is Some && m.lakh_digits is Some
    ||| m.lakh is None && m.percent is Some && m.percent_digits is Some
    ||| m.lakh is None && m.percent is None && m.plain is Some && m.plain_digits is Some
}

/// The whole of a match: of its three kinds the one that was found.
pub open spec fn whole_of(m: MatchView) -> SpanView {
    if m.lakh is Some {
        m.lakh->Some_0
    } else if m.percent is Some {
        m.percent->Some_0
    } else {
        m.plain->Some_0
    }
}

/// The byte behind the last one of a piece.
pub open spec fn end_of(span: SpanView) -> int {
    span.0 + vstd::utf8::encode_utf8(span.1).len()
}

/// Whether a piece is what a text holds at the place of the piece.
pub open spec fn cut_from(span: SpanView, text: Seq<char>) -> bool {
    let bytes = vstd::utf8::encode_utf8(text);
    &&& 0 <= span.0 <= end_of(span) <= bytes.len()
    &&& bytes.subrange(span.0, end_of(span)) == vstd::utf8::encode_utf8(span.1)
}

/// Whether pieces follow one another: none is empty, and each starts where
/// the one before has ended, or later.
pub open spec fn apart(spans: Seq<SpanView>) -> bool {
    &&& forall|i: int| 0 <= i < spans.len() ==> (#[trigger] spans[i]).0 < end_of(spans[i])
    &&& forall|i: int, j: int|
        0 <= i < j < spans.len() ==> end_of(#[trigger] spans[i]) <= (#[trigger] spans[j]).0
}

/// The places of matches.
pub open spec fn wholes(matches: Seq<NumberMatch>) -> Seq<SpanView> {
    matches.map_values(|m: NumberMatch| whole_of(m@))
}

/// No byte belongs to two pieces that follow one another. So an amount in
/// lakh, or a percentage, is never a plain number as well.
pub proof fn lemma_no_byte_counts_twice(spans: Seq<SpanView>, i: int, j: int, at: int)
    requires
        apart(spans),
        0 <= i < spans.len(),
        0 <= j < spans.len(),
        spans[i].0 <= at < end_of(spans[i]),
        spans[j].0 <= at < end_of(spans[j]),
    ensures
        i == j,
{
}

/// Compiles the pattern with `regex::Regex::new` and lists what
/// `Regex::captures_iter` finds, each match by its named groups. Claimed: what
/// is found depends on the pattern and the text alone; since the pattern is a
/// choice of three groups, each with its digits inside, every match has one of
/// the three with its digits; as the documentation of `captures_iter` and
/// `Match` says, the matches are slices of the text and follow one another
/// without overlapping; and none is empty, since each holds a digit or a
/// comma. Where in the text they lie is left to the name.
#[verifier::external_body]
fn number_captures(pattern: &str, text: &str) -> (res: Vec<NumberMatch>)
    requires
        pattern@ == NUMBER_PATTERN@,
    ensures
        matches_view(res@) == captures_of(pattern@, text@),
        forall|i: int|
            0 <= i < res@.len() ==> has_one_kind((#[trigger] res@[i])@) && cut_from(
                whole_of(res@[i]@),
                text@,
            ),
        apart(wholes(res@)),
{
    let span = |m: regex::Match| Span { start: m.start(), text: m.as_str().to_string() };
    let expression = regex::Regex::new(pattern).expect("the pattern is valid");
    let found = expression.captures_iter(text).map(|c| NumberMatch {
        lakh: c.name("lakh").map(span),
        lakh_digits: c.name("lakh_num").map(span),
        percent: c.name("pct").map(span),
        percent_digits: c.name("pct_num").map(span),
        plain: c.name("plain").map(span),
        plain_digits: c.name("plain_num").map(span),
    });
    found.collect()
}

/// What a number is written as, and so what its digits have to be scaled by.
#[derive(Clone, Copy, Debug, PartialEq, Eq, Structural)]
pub enum Notation {
    /// In hundred thousands.
    Lakh,
    /// In hundredths.
    Percent,
    Plain,
}

/// A number found in a text.
#[derive(Debug)]
pub struct NumberToken {
    pub notation: Notation,
    /// Its digits, without grouping and with an ASCII sign.
    pub digits: String,
    /// The whole of it as it stands in the text.
    pub raw_text: String,
    /// The byte at which it starts.
    pub position: usize,
}

/// What a [`NumberToken`] holds.
pub struct TokenView {
    pub notation: Notation,
    pub digits: Seq<char>,
    pub raw_text: Seq<char>,
    pub position: int,
}

impl View for NumberToken {
    type V = TokenView;

    open spec fn view(&self) -> TokenView {
        TokenView {
            notation: self.notation,
            digits: self.digits@,
            raw_text: self.raw_text@,
            position: self.position as int,
        }
    }
}

/// Digits as a number parser takes them: without commas, the Unicode minus as
/// the ASCII one.
pub open spec fn normalized(raw: Seq<char>) -> Seq<char>
    decreases raw.len(),
{
    if raw.len() == 0 {
        seq![]
    } else {
        let before = normalized(raw.drop_last());
        if raw.last() == ',' {
            before
        } else if raw.last() == '\u{2212}' {
            before.push('-')
        } else {
            before.push(raw.last())
        }
    }
}

/// Digits are normalised character by character: two parts put together give
/// what each gives, a comma gives nothing, the typographic minus the plain one,
/// and every other character itself.
pub proof fn lemma_normalized(a: Seq<char>, b: Seq<char>, c: char)
    ensures
        normalized(a + b) == normalized(a) + normalized(b),
        normalized(seq![]) == Seq::<char>::empty(),
        normalized(seq![',']) == Seq::<char>::empty(),
        normalized(seq!['\u{2212}']) == seq!['-'],
        c != ',' && c != '\u{2212}' ==> normalized(seq![c]) == seq![c],
    decreases b.len(),
{
    reveal_with_fuel(normalized, 2);
    assert(seq![','].drop_last() =~= seq![]);
    assert(seq!['\u{2212}'].drop_last() =~= seq![]);
    assert(seq![c].drop_last() =~= seq![]);
    assert(normalized(seq!['\u{2212}']) =~= seq!['-']);
    if c != ',' && c != '\u{2212}' {
        assert(normalized(seq![c]) =~= seq![c]);
    }
    if b.len() == 0 {
        assert(a + b =~= a);
        assert(normalized(a) + normalized(b) =~= normalized(a));
    } else {
        lemma_normalized(a, b.drop_last(), c);
        assert((a + b).drop_last() =~= a + b.drop_last());
        assert((a + b).last() == b.last());
        assert(normalized(a + b) =~= normalized(a) + normalized(b));
    }
}

proof fn lemma_normalized_without_commas(raw: Seq<char>)
    ensures
        normalized(raw) == normalized(crate::format::without_commas(raw)),
    decreases raw.len(),
{
    if raw.len() > 0 {
        lemma_normalized_without_commas(raw.drop_last());
        let front = crate::format::without_commas(raw.drop_last());
        if raw.last() != ',' {
            assert(front.push(raw.last()).drop_last() =~= front);
        }
    }
}

proof fn lemma_normalized_plain(digits: Seq<char>)
    requires
        forall|i: int|
            0 <= i < digits.len() ==> (#[trigger] digits[i]) != ',' && digits[i] != '\u{2212}',
    ensures
        normalized(digits) == digits,
    decreases digits.len(),
{
    if digits.len() > 0 {
        let front = digits.drop_last();
        assert forall|i: int| 0 <= i < front.len() implies (#[trigger] front[i]) != ',' && front[i]
            != '\u{2212}' by {
            assert(front[i] == digits[i]);
        }
        lemma_normalized_plain(front);
        assert(digits.last() == digits[digits.len() - 1]);
        assert(front.push(digits.last()) =~= digits);
    } else {
        assert(normalized(digits) =~= digits);
    }
}

/// How digits are grouped does not matter: numbers that differ in their commas
/// alone are read alike.
pub proof fn lemma_grouping_is_ignored(a: Seq<char>, b: Seq<char>)
    requires
        crate::format::without_commas(a) == crate::format::without_commas(b),
    ensures
        normalized(a) == normalized(b),
{
    lemma_normalized_without_commas(a);
    lemma_normalized_without_commas(b);
}

/// An amount with Indian grouping is read as the digits that it was written
/// from.
pub proof fn lemma_grouped_digits_read_back(digits: Seq<char>)
    requires
        forall|i: int|
            0 <= i < digits.len() ==> (#[trigger] digits[i]) != ',' && digits[i] != '\u{2212}',
    ensures
        normalized(crate::format::grouped(digits)) == digits,
{
    crate::format::lemma_grouping_keeps_digits(digits);
    lemma_normalized_without_commas(crate::format::grouped(digits));
    lemma_normalized_plain(digits);
}

/// Brings digits into the form that a number parser takes.
pub fn parse_digits(raw: &str) -> (res: String)
    ensures
        res@ == normalized(raw@),
{
    let chars = text::chars_of(raw);
    let mut out = String::new();
    let mut i: usize = 0;
    assert(raw@.take(0) =~= seq![]);
    while i < chars.len()
        invariant
            i <= chars@.len(),
            chars@ == raw@,
            out@ == normalized(raw@.take(i as int)),
        decreases chars.len() - i,
    {
        let c = chars[i];
        assert(raw@.take(i as int + 1).drop_last() =~= raw@.take(i as int));
        if c == ',' {
        } else if c == '\u{2212}' {
            out.push('-');
        } else {
            out.push(c);
        }
        i += 1;
    }
    assert(raw@.take(raw@.len() as int) =~= raw@);
    out
}

/// The number that a match stands for: in lakh where that was found, else a
/// percentage, else plain.
pub open spec fn token_of(m: MatchView) -> TokenView {
    let (notation, whole, digits) = if m.lakh is Some {
        (Notation::Lakh, m.lakh, m.lakh_digits)
    } else if m.percent is Some {
        (Notation::Percent, m.percent, m.percent_digits)
    } else {
        (Notation::Plain, m.plain, m.plain_digits)
    };
    TokenView {
        notation,
        digits: normalized(digits->Some_0.1),
        raw_text: whole->Some_0.1,
        position: whole->Some_0.0,
    }
}

/// A match is read by the kind that was found, an amount in lakh before a
/// percentage and that before a plain number: its place and text are those of
/// the whole, its digits those inside.
pub proof fn lemma_token_by_kind(m: MatchView)
    ensures
        m.lakh is Some ==> token_of(m).notation == Notation::Lakh && token_of(m).raw_text
            == m.lakh->Some_0.1 && token_of(m).position == m.lakh->Some_0.0 && token_of(m).digits
            == normalized(m.lakh_digits->Some_0.1),
        m.lakh is None && m.percent is Some ==> token_of(m).notation == Notation::Percent
            && token_of(m).raw_text == m.percent->Some_0.1 && token_of(m).position
            == m.percent->Some_0.0 && token_of(m).digits == normalized(m.percent_digits->Some_0.1),
        m.lakh is None && m.percent is None && m.plain is Some ==> token_of(m).notation
            == Notation::Plain && token_of(m).raw_text == m.plain->Some_0.1 && token_of(m).position
            == m.plain->Some_0.0 && token_of(m).digits == normalized(m.plain_digits->Some_0.1),
{
}

fn make_token(notation: Notation, whole: &Span, digits: &Span) -> (res: NumberToken)
    ensures
        res@ == (TokenView {
            notation,
            digits: normalized(digits.text@),
            raw_text: whole.text@,
            position: whole.start as int,
        }),
{
    NumberToken {
        notation,
        digits: parse_digits(digits.text.as_str()),
        raw_text: text::copy(whole.text.as_str()),
        position: whole.start,
    }
}

/// The numbers that stand for the given matches.
pub fn tokens_of(matches: &Vec<NumberMatch>) -> (res: Vec<NumberToken>)
    requires
        forall|i: int| 0 <= i < matches@.len() ==> has_one_kind((#[trigger] matches@[i])@),
    ensures
        res@.map_values(|t: NumberToken| t@) == matches_view(matches@).map_values(
            |m: MatchView| token_of(m),
        ),
{
    let mut out: Vec<NumberToken> = Vec::new();
    let mut i: usize = 0;
    while i < matches.len()
        invariant
            i <= matches@.len(),
            forall|k: int| 0 <= k < matches@.len() ==> has_one_kind((#[trigger] matches@[k])@),
            out@.len() == i,
            forall|k: int| 0 <= k < i ==> (#[trigger] out@[k])@ == token_of(matches@[k]@),
        decreases matches.len() - i,
    {
        let m = &matches[i];
        assert(has_one_kind(matches@[i as int]@));
        if let (Some(whole), Some(digits)) = (&m.lakh, &m.lakh_digits) {
            out.push(make_token(Notation::Lakh, whole, digits));
        } else if let (Some(whole), Some(digits)) = (&m.percent, &m.percent_digits) {
            out.push(make_token(Notation::Percent, whole, digits));
        } else if let (Some(whole), Some(digits)) = (&m.plain, &m.plain_digits) {
            out.push(make_token(Notation::Plain, whole, digits));
        }
        i += 1;
    }
    assert(out@.map_values(|t: NumberToken| t@) =~= matches_view(matches@).map_values(
        |m: MatchView| token_of(m),
    ));
    out
}

/// Where numbers found in a text lie in it.
pub open spec fn token_spans(tokens: Seq<NumberToken>) -> Seq<SpanView> {
    tokens.map_values(|t: NumberToken| (t.position as int, t.raw_text@))
}

/// The numbers in a text, in the order in which they stand there, each as the
/// text has it and none inside another.
pub fn number_tokens(text: &str) -> (res: Vec<NumberToken>)
    ensures
        res@.map_values(|t: NumberToken| t@) == captures_of(NUMBER_PATTERN@, text@).map_values(
            |m: MatchView| token_of(m),
        ),
        forall|i: int|
            0 <= i < res@.len() ==> cut_from(#[trigger] token_spans(res@)[i], text@),
        apart(token_spans(res@)),
{
    let matches = number_captures(NUMBER_PATTERN, text);
    let tokens = tokens_of(&matches);
    proof {
        let found = matches_view(matches@).map_values(|m: MatchView| token_of(m));
        let views = tokens@.map_values(|t: NumberToken| t@);
        assert(tokens@.len() == views.len() == found.len() == matches@.len());
        assert forall|i: int| 0 <= i < tokens@.len() implies #[trigger] token_spans(tokens@)[i]
            == wholes(matches@)[i] by {
            assert(views[i] == found[i]);
            assert(has_one_kind(matches@[i]@));
        }
        assert(token_spans(tokens@) =~= wholes(matches@));
    }
    tokens
}

/// A number found in a text, with its value.
#[derive(Debug)]
pub struct ExtractedNumber {
    pub value: Double,
    pub raw_text: String,
    pub position: usize,
}

/// What an [`ExtractedNumber`] or an [`UnmatchedNumber`] says.
pub struct StatedNumber {
    pub value: Double,
    pub raw_text: Seq<char>,
    pub position: int,
}

impl View for ExtractedNumber {
    type V = StatedNumber;

    open spec fn view(&self) -> StatedNumber {
        StatedNumber {
            value: self.value,
            raw_text: self.raw_text@,
            position: self.position as int,
        }
    }
}

/// What numbers say.
pub open spec fn stated(numbers: Seq<ExtractedNumber>) -> Seq<StatedNumber> {
    numbers.map_values(|n: ExtractedNumber| n@)
}

/// The first `n` numbers that have a value.
pub open spec fn valued(tokens: Seq<NumberToken>, values: Seq<Option<Double>>, n: int) -> Seq<
    StatedNumber,
>
    decreases n,
{
    if n <= 0 {
        seq![]
    } else {
        match values[n - 1] {
            Some(value) => valued(tokens, values, n - 1).push(
                StatedNumber {
                    value,
                    raw_text: tokens[n - 1].raw_text@,
                    position: tokens[n - 1].position as int,
                },
            ),
            None => valued(tokens, values, n - 1),
        }
    }
}

/// Each number that has a value is stated with it, and with the text and the
/// place of its own token; nothing else is stated.
pub proof fn lemma_valued(tokens: Seq<NumberToken>, values: Seq<Option<Double>>, n: int)
    requires
        0 <= n <= tokens.len(),
        tokens.len() == values.len(),
    ensures
        valued(tokens, values, n).len() <= n,
        forall|i: int|
            0 <= i < n && (#[trigger] values[i]) is Some ==> valued(tokens, values, n).contains(
                StatedNumber {
                    value: values[i]->Some_0,
                    raw_text: tokens[i].raw_text@,
                    position: tokens[i].position as int,
                },
            ),
        forall|k: int|
            0 <= k < valued(tokens, values, n).len() ==> exists|i: int|
                0 <= i < n && (#[trigger] values[i]) == Some(
                    (#[trigger] valued(tokens, values, n)[k]).value,
                ) && tokens[i].raw_text@ == valued(tokens, values, n)[k].raw_text
                    && tokens[i].position == valued(tokens, values, n)[k].position,
    decreases n,
{
    if n > 0 {
        lemma_valued(tokens, values, n - 1);
        let (before, all) = (valued(tokens, values, n - 1), valued(tokens, values, n));
        assert forall|i: int| 0 <= i < n && (#[trigger] values[i]) is Some implies all.contains(
            StatedNumber {
                value: values[i]->Some_0,
                raw_text: tokens[i].raw_text@,
                position: tokens[i].position as int,
            },
        ) by {
            let own = StatedNumber {
                value: values[i]->Some_0,
                raw_text: tokens[i].raw_text@,
                position: tokens[i].position as int,
            };
            if i < n - 1 {
                assert(before.contains(own));
                let k = choose|k: int| 0 <= k < before.len() && before[k] == own;
                assert(all[k] == own);
            } else {
                assert(all[before.len() as int] == own);
            }
        }
        assert forall|k: int| 0 <= k < all.len() implies exists|i: int|
            0 <= i < n && (#[trigger] values[i]) == Some((#[trigger] all[k]).value)
                && tokens[i].raw_text@ == all[k].raw_text && tokens[i].position
                == all[k].position by {
            if k < before.len() {
                assert(all[k] == before[k]);
                let i = choose|i: int|
                    0 <= i < n - 1 && (#[trigger] values[i]) == Some(before[k].value)
                        && tokens[i].raw_text@ == before[k].raw_text && tokens[i].position
                        == before[k].position;
                assert(values[i] == Some(all[k].value));
            } else {
                assert(values[n - 1] == Some(all[k].value));
            }
        }
    }
}

/// Where stated numbers lie in their text.
pub open spec fn stated_spans(numbers: Seq<StatedNumber>) -> Seq<SpanView> {
    numbers.map_values(|n: StatedNumber| (n.position, n.raw_text))
}

/// Numbers that follow one another in a text still do when those without a
/// value are left out: no number is reported twice.
pub proof fn lemma_no_number_is_reported_twice(
    tokens: Seq<NumberToken>,
    values: Seq<Option<Double>>,
    n: int,
)
    requires
        apart(token_spans(tokens)),
        0 <= n <= tokens.len(),
    ensures
        apart(stated_spans(valued(tokens, values, n))),
        forall|i: int, k: int|
            0 <= i < valued(tokens, values, n).len() && n <= k < tokens.len() ==> end_of(
                #[trigger] stated_spans(valued(tokens, values, n))[i],
            ) <= (#[trigger] token_spans(tokens)[k]).0,
    decreases n,
{
    if n > 0 {
        lemma_no_number_is_reported_twice(tokens, values, n - 1);
        let before = stated_spans(valued(tokens, values, n - 1));
        let now = stated_spans(valued(tokens, values, n));
        if values[n - 1] is Some {
            assert(now =~= before.push(token_spans(tokens)[n - 1]));
        }
    }
}

/// The numbers that have a value, with it: digits that are no number have
/// none.
pub fn extract_numbers(tokens: &Vec<NumberToken>, values: &Vec<Option<Double>>) -> (res: Vec<
    ExtractedNumber,
>)
    requires
        tokens@.len() == values@.len(),
    ensures
        stated(res@) == valued(tokens@, values@, tokens@.len() as int),
{
    let mut out: Vec<ExtractedNumber> = Vec::new();
    let mut i: usize = 0;
    assert(stated(out@) =~= seq![]);
    while i < tokens.len()
        invariant
            i <= tokens@.len(),
            tokens@.len() == values@.len(),
            stated(out@) == valued(tokens@, values@, i as int),
        decreases tokens.len() - i,
    {
        let ghost before = out@;
        if let Some(value) = values[i] {
            let token = &tokens[i];
            out.push(
                ExtractedNumber {
                    value,
                    raw_text: text::copy(token.raw_text.as_str()),
                    position: token.position,
                },
            );
            assert(stated(out@) =~= stated(before).push(
                StatedNumber {
                    value,
                    raw_text: tokens@[i as int].raw_text@,
                    position: tokens@[i as int].position as int,
                },
            ));
        }
        i += 1;
    }
    out
}

// ---------------------------------------------------------------------------
// The evidence
// ---------------------------------------------------------------------------

/// The numbers inside a JSON value, in the order in which they stand in it.
pub open spec fn leaves(value: JsonView) -> Seq<Double>
    decreases value, json::breadth(value) + 1,
{
    match value {
        JsonView::Number(n) => seq![n.double],
        JsonView::Array(items) => leaves_upto(value, items.len()),
        JsonView::Object(fields) => leaves_upto(value, fields.len()),
        _ => seq![],
    }
}

/// The numbers inside the first `n` fields or items of a value.
pub open spec fn leaves_upto(value: JsonView, n: nat) -> Seq<Double>
    decreases value, n,
{
    if n == 0 {
        seq![]
    } else {
        match value {
            JsonView::Array(items) => if n > items.len() {
                seq![]
            } else {
                leaves_upto(value, (n - 1) as nat) + leaves(items[n - 1])
            },
            JsonView::Object(fields) => if n > fields.len() {
                seq![]
            } else {
                leaves_upto(value, (n - 1) as nat) + leaves(fields[n - 1].1)
            },
            _ => seq![],
        }
    }
}

proof fn lemma_leaves_upto(value: JsonView, n: nat, x: Double)
    ensures
        value matches JsonView::Array(items) ==> n <= items.len() ==> (leaves_upto(
            value,
            n,
        ).contains(x) <==> exists|i: int| 0 <= i < n && leaves(#[trigger] items[i]).contains(x)),
        value matches JsonView::Object(fields) ==> n <= fields.len() ==> (leaves_upto(
            value,
            n,
        ).contains(x) <==> exists|i: int| 0 <= i < n && leaves((#[trigger] fields[i]).1).contains(x)),
    decreases n,
{
    if n > 0 {
        lemma_leaves_upto(value, (n - 1) as nat, x);
        let before = leaves_upto(value, (n - 1) as nat);
        let all = leaves_upto(value, n);
        match value {
            JsonView::Array(items) => {
                if n <= items.len() {
                    lemma_in_either(before, leaves(items[n - 1]), x);
                    assert(all == before + leaves(items[n - 1]));
                }
            },
            JsonView::Object(fields) => {
                if n <= fields.len() {
                    lemma_in_either(before, leaves(fields[n - 1].1), x);
                    assert(all == before + leaves(fields[n - 1].1));
                }
            },
            _ => {},
        }
    }
}

proof fn lemma_in_either(a: Seq<Double>, b: Seq<Double>, x: Double)
    ensures
        (a + b).contains(x) <==> a.contains(x) || b.contains(x),
{
    let all = a + b;
    if a.contains(x) {
        let k = choose|k: int| 0 <= k < a.len() && a[k] == x;
        assert(all[k] == x);
    }
    if b.contains(x) {
        let k = choose|k: int| 0 <= k < b.len() && b[k] == x;
        assert(all[a.len() + k] == x);
    }
    if all.contains(x) {
        let k = choose|k: int| 0 <= k < all.len() && all[k] == x;
        if k < a.len() {
            assert(a[k] == x);
        } else {
            assert(b[k - a.len()] == x);
        }
    }
}

/// The numbers of a value: a number is its own, a list has those of its items
/// and an object those of its fields, and nothing else has any.
pub proof fn lemma_leaves(value: JsonView, x: Double)
    ensures
        value matches JsonView::Number(n) ==> (leaves(value).contains(x) <==> x == n.double),
        value matches JsonView::Array(items) ==> (leaves(value).contains(x) <==> exists|i: int|
            0 <= i < items.len() && leaves(#[trigger] items[i]).contains(x)),
        value matches JsonView::Object(fields) ==> (leaves(value).contains(x) <==> exists|i: int|
            0 <= i < fields.len() && leaves((#[trigger] fields[i]).1).contains(x)),
        value is Null || value is Bool || value is Text || value is Sentence ==> leaves(value).len()
            == 0,
{
    match value {
        JsonView::Number(n) => {
            assert(leaves(value)[0] == n.double);
        },
        JsonView::Array(items) => {
            lemma_leaves_upto(value, items.len(), x);
        },
        JsonView::Object(fields) => {
            lemma_leaves_upto(value, fields.len(), x);
        },
        _ => {},
    }
}

fn collect_numeric_leaves(value: &Json, out: &mut Vec<Double>)
    ensures
        final(out)@ == old(out)@ + leaves(value@),
    decreases value,
{
    broadcast use {json::lemma_array_view, json::lemma_object_view};

    let ghost start = out@;
    match value {
        Json::Number(n) => {
            out.push(n.double);
            assert(out@ =~= start + seq![n.double]);
        },
        Json::Array(items) => {
            let mut i: usize = 0;
            assert(out@ =~= start + leaves_upto(value@, 0));
            while i < items.len()
                invariant
                    value == Json::Array(*items),
                    value@ == JsonView::Array(json::items_view(items@)),
                    i <= items@.len(),
                    out@ == start + leaves_upto(value@, i as nat),
                decreases items.len() - i,
            {
                assert(decreases_to!(value => value->Array_0));
                assert(decreases_to!(items => items@));
                assert(decreases_to!(items@ => items@[i as int]));
                assert(json::items_view(items@)[i as int] == items@[i as int]@);
                let ghost before = leaves_upto(value@, i as nat);
                collect_numeric_leaves(&items[i], out);
                i += 1;
                assert(out@ =~= start + (before + leaves(items@[i - 1]@)));
            }
        },
        Json::Object(fields) => {
            let mut i: usize = 0;
            assert(out@ =~= start + leaves_upto(value@, 0));
            while i < fields.len()
                invariant
                    value == Json::Object(*fields),
                    value@ == JsonView::Object(json::fields_view(fields@)),
                    i <= fields@.len(),
                    out@ == start + leaves_upto(value@, i as nat),
                decreases fields.len() - i,
            {
                assert(decreases_to!(value => value->Object_0));
                assert(decreases_to!(fields => fields@));
                assert(decreases_to!(fields@ => fields@[i as int]));
                assert(decreases_to!(fields@[i as int] => fields@[i as int].value));
                assert(json::fields_view(fields@)[i as int] == (
                    fields@[i as int].name@,
                    fields@[i as int].value@,
                ));
                let ghost before = leaves_upto(value@, i as nat);
                collect_numeric_leaves(&fields[i].value, out);
                i += 1;
                assert(out@ =~= start + (before + leaves(fields@[i - 1].value@)));
            }
        },
        _ => {
            assert(out@ =~= start + seq![]);
        },
    }
}

/// The numbers inside a JSON value.
pub fn numeric_leaves(value: &Json) -> (res: Vec<Double>)
    ensures
        res@ == leaves(value@),
{
    let mut out: Vec<Double> = Vec::new();
    collect_numeric_leaves(value, &mut out);
    assert(out@ =~= leaves(value@));
    out
}

/// The numbers of several pieces of evidence, one after the other.
pub open spec fn all_leaves(values: Seq<JsonView>, n: int) -> Seq<Double>
    decreases n,
{
    if n <= 0 {
        seq![]
    } else {
        all_leaves(values, n - 1) + leaves(values[n - 1])
    }
}

/// The numbers of several pieces of evidence: together they are what a
/// narration of all of them may state.
pub fn evidence_numbers(values: &Vec<Json>) -> (res: Vec<Double>)
    ensures
        res@ == all_leaves(json::items_view(values@), values@.len() as int),
{
    let ghost views = json::items_view(values@);
    let mut out: Vec<Double> = Vec::new();
    let mut i: usize = 0;
    while i < values.len()
        invariant
            i <= values@.len(),
            views == json::items_view(values@),
            out@ == all_leaves(views, i as int),
        decreases values.len() - i,
    {
        assert(views[i as int] == values@[i as int]@);
        collect_numeric_leaves(&values[i], &mut out);
        i += 1;
    }
    out
}

// ---------------------------------------------------------------------------
// The check
// ---------------------------------------------------------------------------

/// A number that is not found in the evidence.
#[derive(Debug)]
pub struct UnmatchedNumber {
    pub value: Double,
    pub raw_text: String,
    pub position: usize,
}

impl View for UnmatchedNumber {
    type V = StatedNumber;

    open spec fn view(&self) -> StatedNumber {
        StatedNumber {
            value: self.value,
            raw_text: self.raw_text@,
            position: self.position as int,
        }
    }
}

/// The numbers of a narration, sorted.
#[derive(Debug)]
pub struct GroundingCheck {
    pub matched: Vec<Double>,
    pub unmatched: Vec<UnmatchedNumber>,
}

impl GroundingCheck {
    /// Whether every number is found in the evidence.
    pub fn passed(&self) -> (res: bool)
        ensures
            res == (self.unmatched@.len() == 0),
    {
        self.unmatched.len() == 0
    }
}

/// Whether a number is found in the evidence: its relative distance from some
/// number of it is within the tolerance.
pub open spec fn is_grounded(distances: Seq<Double>) -> bool {
    exists|t: int|
        0 <= t < distances.len() && (#[trigger] distances[t]).at_most(
            Double { bits: RELATIVE_TOLERANCE_BITS },
        )
}

fn grounded(distances: &Vec<Double>) -> (res: bool)
    ensures
        res == is_grounded(distances@),
{
    let mut t: usize = 0;
    while t < distances.len()
        invariant
            t <= distances@.len(),
            forall|k: int|
                0 <= k < t ==> !(#[trigger] distances@[k]).at_most(
                    Double { bits: RELATIVE_TOLERANCE_BITS },
                ),
        decreases distances.len() - t,
    {
        if distances[t].le(Double { bits: RELATIVE_TOLERANCE_BITS }) {
            return true;
        }
        t += 1;
    }
    false
}

/// The values of those of the first `n` numbers that are found in the
/// evidence.
pub open spec fn matched_values(
    numbers: Seq<StatedNumber>,
    distances: Seq<Vec<Double>>,
    n: int,
) -> Seq<Double>
    decreases n,
{
    if n <= 0 {
        seq![]
    } else if is_grounded(distances[n - 1]@) {
        matched_values(numbers, distances, n - 1).push(numbers[n - 1].value)
    } else {
        matched_values(numbers, distances, n - 1)
    }
}

/// Those of the first `n` numbers that are not found in the evidence.
pub open spec fn unmatched_numbers(
    numbers: Seq<StatedNumber>,
    distances: Seq<Vec<Double>>,
    n: int,
) -> Seq<StatedNumber>
    decreases n,
{
    if n <= 0 {
        seq![]
    } else if is_grounded(distances[n - 1]@) {
        unmatched_numbers(numbers, distances, n - 1)
    } else {
        unmatched_numbers(numbers, distances, n - 1).push(numbers[n - 1])
    }
}

/// Sorts the numbers of a narration, given the relative distance of each from
/// every number of the evidence.
pub fn check_grounding(numbers: &Vec<ExtractedNumber>, distances: &Vec<Vec<Double>>) -> (res:
    GroundingCheck)
    requires
        numbers@.len() == distances@.len(),
    ensures
        res.matched@ == matched_values(stated(numbers@), distances@, numbers@.len() as int),
        res.unmatched@.map_values(|u: UnmatchedNumber| u@) == unmatched_numbers(
            stated(numbers@),
            distances@,
            numbers@.len() as int,
        ),
{
    let ghost said = stated(numbers@);
    let mut matched: Vec<Double> = Vec::new();
    let mut unmatched: Vec<UnmatchedNumber> = Vec::new();
    let mut i: usize = 0;
    assert(unmatched@.map_values(|u: UnmatchedNumber| u@) =~= seq![]);
    while i < numbers.len()
        invariant
            i <= numbers@.len(),
            numbers@.len() == distances@.len(),
            said == stated(numbers@),
            matched@ == matched_values(said, distances@, i as int),
            unmatched@.map_values(|u: UnmatchedNumber| u@) == unmatched_numbers(
                said,
                distances@,
                i as int,
            ),
        decreases numbers.len() - i,
    {
        let ghost before = unmatched@;
        let number = &numbers[i];
        assert(said[i as int] == numbers@[i as int]@);
        if grounded(&distances[i]) {
            matched.push(number.value);
        } else {
            unmatched.push(
                UnmatchedNumber {
                    value: number.value,
                    raw_text: text::copy(number.raw_text.as_str()),
                    position: number.position,
                },
            );
            assert(unmatched@.map_values(|u: UnmatchedNumber| u@) =~= before.map_values(
                |u: UnmatchedNumber| u@,
            ).push(said[i as int]));
        }
        i += 1;
    }
    GroundingCheck { matched, unmatched }
}

/// A number is found where some number of the evidence is within two percent of
/// it, and only there. What is found goes by its value to the found ones, what
/// is not goes with its text and place to those reported.
pub proof fn lemma_found_or_reported(
    numbers: Seq<StatedNumber>,
    distances: Seq<Vec<Double>>,
    n: int,
    k: int,
)
    requires
        0 <= k < n <= numbers.len(),
        numbers.len() == distances.len(),
    ensures
        is_grounded(distances[k]@) <==> exists|t: int|
            0 <= t < distances[k]@.len() && (#[trigger] distances[k]@[t]).at_most(
                Double { bits: 0x3f94_7ae1_47ae_147b },
            ),
        is_grounded(distances[k]@) ==> matched_values(numbers, distances, n).contains(
            numbers[k].value,
        ),
        !is_grounded(distances[k]@) ==> unmatched_numbers(numbers, distances, n).contains(
            numbers[k],
        ),
    decreases n,
{
    let (found, reported) = (
        matched_values(numbers, distances, n),
        unmatched_numbers(numbers, distances, n),
    );
    if k < n - 1 {
        lemma_found_or_reported(numbers, distances, n - 1, k);
        if is_grounded(distances[k]@) {
            let before = matched_values(numbers, distances, n - 1);
            let i = choose|i: int| 0 <= i < before.len() && before[i] == numbers[k].value;
            assert(found[i] == numbers[k].value);
        } else {
            let before = unmatched_numbers(numbers, distances, n - 1);
            let i = choose|i: int| 0 <= i < before.len() && before[i] == numbers[k];
            assert(reported[i] == numbers[k]);
        }
    } else if is_grounded(distances[k]@) {
        assert(found[matched_values(numbers, distances, n - 1).len() as int] == numbers[k].value);
    } else {
        assert(reported[unmatched_numbers(numbers, distances, n - 1).len() as int] == numbers[k]);
    }
}

/// Every number of a narration is either found or reported, none both; and
/// the check passes exactly where every one is found.
pub proof fn lemma_check_covers_every_number(
    numbers: Seq<StatedNumber>,
    distances: Seq<Vec<Double>>,
    n: int,
)
    requires
        0 <= n <= numbers.len(),
    ensures
        matched_values(numbers, distances, n).len() + unmatched_numbers(numbers, distances, n).len()
            == n,
        unmatched_numbers(numbers, distances, n).len() == 0 <==> (forall|k: int|
            0 <= k < n ==> is_grounded((#[trigger] distances[k])@)),
    decreases n,
{
    if n > 0 {
        lemma_check_covers_every_number(numbers, distances, n - 1);
        let k = n - 1;
        assert(is_grounded(distances[k]@) || !is_grounded(distances[k]@));
    }
}

// ---------------------------------------------------------------------------
// Asking again
// ---------------------------------------------------------------------------

/// A narration with what could not be verified in it.
#[derive(Debug)]
pub struct GroundedNarration {
    pub narration: String,
    /// Empty where every number was found.
    pub grounding_warnings: Vec<String>,
}

/// The texts of the numbers that were not found.
pub open spec fn raw_texts(unmatched: Seq<UnmatchedNumber>) -> Seq<Seq<char>> {
    unmatched.map_values(|u: UnmatchedNumber| u.raw_text@)
}

/// What the model is told where numbers were not found.
pub open spec fn instructions(unmatched: Seq<UnmatchedNumber>) -> Seq<char> {
    "The following numbers in your previous response could not be verified in the trace: ["@
        + text::joined(raw_texts(unmatched), ", "@)
        + "]. Rewrite your response using only numbers that appear verbatim in the trace provided."@
}

/// What the model is told where numbers were not found.
pub fn retry_instructions(unmatched: &Vec<UnmatchedNumber>) -> (res: String)
    ensures
        res@ == instructions(unmatched@),
{
    let mut pieces: Vec<String> = Vec::new();
    let mut i: usize = 0;
    while i < unmatched.len()
        invariant
            i <= unmatched@.len(),
            pieces@.len() == i,
            forall|k: int| 0 <= k < i ==> (#[trigger] pieces@[k])@ == unmatched@[k].raw_text@,
        decreases unmatched.len() - i,
    {
        pieces.push(text::copy(unmatched[i].raw_text.as_str()));
        i += 1;
    }
    assert(text::views(pieces@) =~= raw_texts(unmatched@));
    let list = text::join(&pieces, ", ");
    text::join3(
        "The following numbers in your previous response could not be verified in the trace: [",
        list.as_str(),
        "]. Rewrite your response using only numbers that appear verbatim in the trace provided.",
    )
}

/// The warning for a number that was not found.
pub open spec fn warning(number: UnmatchedNumber) -> Seq<char> {
    "unverified number '"@ + number.raw_text@ + "' at byte position "@ + text::decimal(
        number.position as nat,
    ) + " in the narration"@
}

/// The warnings for numbers that were not found.
pub fn grounding_warnings(unmatched: &Vec<UnmatchedNumber>) -> (res: Vec<String>)
    ensures
        text::views(res@) == unmatched@.map_values(|u: UnmatchedNumber| warning(u)),
{
    let mut out: Vec<String> = Vec::new();
    let mut i: usize = 0;
    while i < unmatched.len()
        invariant
            i <= unmatched@.len(),
            out@.len() == i,
            forall|k: int| 0 <= k < i ==> (#[trigger] out@[k])@ == warning(unmatched@[k]),
        decreases unmatched.len() - i,
    {
        let number = &unmatched[i];
        let position = text::decimal_text(number.position as u64);
        let head = text::join3(
            "unverified number '",
            number.raw_text.as_str(),
            "' at byte position ",
        );
        out.push(text::join3(head.as_str(), position.as_str(), " in the narration"));
        i += 1;
    }
    assert(text::views(out@) =~= unmatched@.map_values(|u: UnmatchedNumber| warning(u)));
    out
}

/// What follows the check of a narration.
#[derive(Debug)]
pub enum AfterCheck {
    /// The narration is given out, with warnings where numbers were not found.
    Deliver(GroundedNarration),
    /// The narration is asked for again with these instructions.
    Retry(String),
}

/// Decides what follows the check of a narration that came after `retries`
/// others: it is asked for again while numbers are missing and retries are
/// left; the last one is given out whatever it states.
pub fn after_check(narration: String, check: &GroundingCheck, retries: u32) -> (res: AfterCheck)
    ensures
        if check.unmatched@.len() > 0 && retries < MAX_RETRIES {
            res is Retry && res->Retry_0@ == instructions(check.unmatched@)
        } else {
            &&& res is Deliver
            &&& res->Deliver_0.narration == narration
            &&& text::views(res->Deliver_0.grounding_warnings@) == check.unmatched@.map_values(
                |u: UnmatchedNumber| warning(u),
            )
        },
        check.unmatched@.len() == 0 || retries >= 2 <==> res is Deliver,
{
    if !check.passed() && retries < MAX_RETRIES {
        AfterCheck::Retry(retry_instructions(&check.unmatched))
    } else {
        AfterCheck::Deliver(
            GroundedNarration {
                narration,
                grounding_warnings: grounding_warnings(&check.unmatched),
            },
        )
    }
}

} // verus!
