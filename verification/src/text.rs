//! Text as sequences of characters: the small string operations that the
//! other modules build on, each with its exact result.

use vstd::prelude::*;

verus! {

/// `String::push` of the standard library appends the given character to the
/// end of the string.
pub assume_specification[ String::push ](s: &mut String, c: char)
    ensures
        final(s)@ == old(s)@.push(c),
;

/// The name of what `str::to_lowercase` returns.
pub uninterp spec fn unicode_lowercase(text: Seq<char>) -> Seq<char>;

/// An ASCII capital as its small letter, every other character as itself.
pub open spec fn ascii_lower_char(c: char) -> char {
    if 'A' <= c && c <= 'Z' {
        (c as u8 + 32) as char
    } else {
        c
    }
}

/// `text` with its ASCII capitals made small.
pub open spec fn ascii_lower(text: Seq<char>) -> Seq<char> {
    text.map_values(|c: char| ascii_lower_char(c))
}

/// Small letters lie thirty-two behind their capitals, and nothing but the
/// capitals of the alphabet is changed.
pub proof fn lemma_ascii_lower(text: Seq<char>)
    ensures
        ascii_lower(text).len() == text.len(),
        forall|i: int|
            0 <= i < text.len() ==> (#[trigger] ascii_lower(text)[i]) as int == text[i] as int + (
            if 65 <= text[i] as int <= 90 {
                32int
            } else {
                0int
            }),
{
}

/// Calls `str::to_lowercase`. Claimed: the result depends on the text alone,
/// and where the text is plain ASCII it is the text with its capitals made
/// small. What it does to other characters is left to the name.
#[verifier::external_body]
fn to_lowercase(text: &str) -> (res: String)
    ensures
        res@ == unicode_lowercase(text@),
        vstd::utf8::is_ascii_chars(text@) ==> res@ == ascii_lower(text@),
{
    text.to_lowercase()
}

/// `text` in small letters.
pub open spec fn lowercase(text: Seq<char>) -> Seq<char> {
    if vstd::utf8::is_ascii_chars(text) {
        ascii_lower(text)
    } else {
        unicode_lowercase(text)
    }
}

/// Makes all capitals of `text` small.
pub fn lower(text: &str) -> (res: String)
    ensures
        res@ == lowercase(text@),
{
    to_lowercase(text)
}

/// The name of what the `Debug` form of a text is.
pub uninterp spec fn debug_text(text: Seq<char>) -> Seq<char>;

/// Whether a text holds only printable ASCII, no quote and no backslash.
pub open spec fn is_plain(text: Seq<char>) -> bool {
    forall|i: int|
        0 <= i < text.len() ==> ' ' <= (#[trigger] text[i]) && text[i] <= '~' && text[i] != '"'
            && text[i] != '\\'
}

/// Writes a text with the `Debug` impl of `str`. Claimed: the result depends
/// on the text alone, and a plain text is put between double quotes as it is.
/// How other characters are escaped is left to the name.
#[verifier::external_body]
fn debug_form(text: &str) -> (res: String)
    ensures
        res@ == debug_text(text@),
        is_plain(text@) ==> res@ == seq!['"'] + text@ + seq!['"'],
{
    format!("{text:?}")
}

/// `text` between double quotes, with escapes where it needs them.
pub open spec fn quoted(text: Seq<char>) -> Seq<char> {
    if is_plain(text) {
        seq!['"'] + text + seq!['"']
    } else {
        debug_text(text)
    }
}

/// Puts `text` between double quotes.
pub fn quote(text: &str) -> (res: String)
    ensures
        res@ == quoted(text@),
{
    debug_form(text)
}

/// Makes the ASCII capitals of `text` small.
pub fn lower_ascii(text: &str) -> (res: String)
    ensures
        res@ == ascii_lower(text@),
{
    let chars = chars_of(text);
    let mut out = String::new();
    let mut i: usize = 0;
    while i < chars.len()
        invariant
            i <= chars@.len(),
            chars@ == text@,
            out@ == ascii_lower(text@).take(i as int),
        decreases chars.len() - i,
    {
        let c = chars[i];
        if 'A' <= c && c <= 'Z' {
            out.push((c as u8 + 32) as char);
        } else {
            out.push(c);
        }
        i += 1;
        assert(out@ =~= ascii_lower(text@).take(i as int));
    }
    assert(ascii_lower(text@).take(text@.len() as int) =~= ascii_lower(text@));
    out
}

/// The decimal digit with value `d`.
pub open spec fn digit_char(d: int) -> char {
    (48 + d) as char
}

/// The decimal notation of `n`, without leading zeros.
pub open spec fn decimal(n: nat) -> Seq<char>
    decreases n,
{
    if n < 10 {
        seq![digit_char(n as int)]
    } else {
        decimal(n / 10).push(digit_char((n % 10) as int))
    }
}

/// The number that decimal digits write.
pub open spec fn written_number(digits: Seq<char>) -> int
    decreases digits.len(),
{
    if digits.len() == 0 {
        0
    } else {
        10 * written_number(digits.drop_last()) + (digits.last() as int - '0' as int)
    }
}

/// Decimal notation is made of digits, has no zero in front but for zero
/// itself, and writes its number.
pub proof fn lemma_decimal(n: nat)
    ensures
        decimal(n).len() > 0,
        written_number(decimal(n)) == n,
        forall|i: int| 0 <= i < decimal(n).len() ==> '0' <= (#[trigger] decimal(n)[i]) <= '9',
        n > 0 ==> decimal(n)[0] != '0',
    decreases n,
{
    if n < 10 {
        assert(decimal(n).drop_last() =~= seq![]);
        assert(written_number(decimal(n).drop_last()) == 0);
    } else {
        lemma_decimal(n / 10);
        assert(decimal(n).drop_last() =~= decimal(n / 10));
        assert(decimal(n)[0] == decimal(n / 10)[0]);
    }
}

/// The decimal notation of `n`.
pub fn decimal_text(n: u64) -> (res: String)
    ensures
        res@ == decimal(n as nat),
    decreases n,
{
    let mut text = if n < 10 {
        String::new()
    } else {
        decimal_text(n / 10)
    };
    let last: u8 = (n % 10) as u8;
    text.push((48u8 + last) as char);
    assert(text@ == decimal(n as nat));
    text
}

/// The characters of `text`, in order.
pub fn chars_of(text: &str) -> (res: Vec<char>)
    ensures
        res@ == text@,
{
    let mut out: Vec<char> = Vec::new();
    for c in it: text.chars()
        invariant
            it.seq() == text@,
            out@ == text@.subrange(0, it.index() as int),
    {
        out.push(c);
    }
    assert(text@.subrange(0, text@.len() as int) == text@);
    out
}

/// The text with the given characters.
pub fn text_of(chars: &[char]) -> (res: String)
    ensures
        res@ == chars@,
{
    let mut out = String::new();
    let mut i: usize = 0;
    while i < chars.len()
        invariant
            i <= chars@.len(),
            out@ == chars@.subrange(0, i as int),
        decreases chars.len() - i,
    {
        out.push(chars[i]);
        i += 1;
    }
    assert(chars@.subrange(0, chars@.len() as int) == chars@);
    out
}

/// A copy of `text`.
pub fn copy(text: &str) -> (res: String)
    ensures
        res@ == text@,
{
    text.to_string()
}

/// Two texts, one after the other.
pub fn join2(a: &str, b: &str) -> (res: String)
    ensures
        res@ == a@ + b@,
{
    let mut out = a.to_string();
    out.append(b);
    out
}

/// Three texts, one after the other.
pub fn join3(a: &str, b: &str, c: &str) -> (res: String)
    ensures
        res@ == a@ + b@ + c@,
{
    let mut out = join2(a, b);
    out.append(c);
    out
}

/// Whether two texts are the same.
pub fn same(a: &str, b: &str) -> (res: bool)
    ensures
        res == (a@ == b@),
{
    let left = a.to_string();
    let right = b.to_string();
    left == right
}

/// The pieces, in order, with `separator` between neighbours.
pub open spec fn joined(pieces: Seq<Seq<char>>, separator: Seq<char>) -> Seq<char>
    decreases pieces.len(),
{
    if pieces.len() == 0 {
        seq![]
    } else if pieces.len() == 1 {
        pieces[0]
    } else {
        joined(pieces.drop_last(), separator) + separator + pieces.last()
    }
}

/// Nothing joins to nothing, one piece to itself, and one piece more comes
/// behind a separator.
pub proof fn lemma_joined(pieces: Seq<Seq<char>>, piece: Seq<char>, separator: Seq<char>)
    ensures
        joined(seq![], separator).len() == 0,
        joined(seq![piece], separator) == piece,
        pieces.len() > 0 ==> joined(pieces.push(piece), separator) == joined(pieces, separator)
            + separator + piece,
{
    assert(pieces.push(piece).drop_last() =~= pieces);
}

/// The characters of each text.
pub open spec fn views(texts: Seq<String>) -> Seq<Seq<char>> {
    texts.map_values(|s: String| s@)
}

/// Joins `pieces` with `separator` between neighbours.
pub fn join(pieces: &Vec<String>, separator: &str) -> (res: String)
    ensures
        res@ == joined(views(pieces@), separator@),
{
    let mut out = String::new();
    let mut i: usize = 0;
    assert(views(pieces@).take(0) =~= seq![]);
    while i < pieces.len()
        invariant
            i <= pieces@.len(),
            out@ == joined(views(pieces@).take(i as int), separator@),
        decreases pieces.len() - i,
    {
        proof {
            let now = views(pieces@).take(i as int + 1);
            assert(now.drop_last() =~= views(pieces@).take(i as int));
            assert(now.last() == pieces@[i as int]@);
        }
        if i > 0 {
            out.append(separator);
        }
        out.append(pieces[i].as_str());
        i += 1;
        assert(out@ =~= joined(views(pieces@).take(i as int), separator@));
    }
    assert(views(pieces@).take(pieces@.len() as int) =~= views(pieces@));
    out
}

/// Whether `a` comes strictly before `b` in the order of their characters,
/// compared from the front; a proper prefix comes first.
pub open spec fn precedes(a: Seq<char>, b: Seq<char>) -> bool
    decreases a.len(),
{
    if b.len() == 0 {
        false
    } else if a.len() == 0 {
        true
    } else if a[0] == b[0] {
        precedes(a.drop_first(), b.drop_first())
    } else {
        (a[0] as int) < (b[0] as int)
    }
}

/// Two texts are ordered by the first place at which they differ, and where one
/// continues the other the shorter one comes first.
pub proof fn lemma_first_difference_decides(a: Seq<char>, b: Seq<char>, k: int)
    requires
        0 <= k <= a.len(),
        k <= b.len(),
        forall|i: int| 0 <= i < k ==> #[trigger] a[i] == b[i],
        k < a.len() && k < b.len() ==> a[k] != b[k],
    ensures
        k < a.len() && k < b.len() ==> (precedes(a, b) <==> (a[k] as int) < (b[k] as int)),
        k == a.len() ==> (precedes(a, b) <==> a.len() < b.len()),
        k == b.len() ==> !precedes(a, b),
    decreases k,
{
    if k > 0 {
        assert(a[0] == b[0]);
        let (c, d) = (a.drop_first(), b.drop_first());
        assert forall|i: int| 0 <= i < k - 1 implies #[trigger] c[i] == d[i] by {
            assert(a[i + 1] == b[i + 1]);
        }
        lemma_first_difference_decides(c, d, k - 1);
    }
}

pub proof fn lemma_precedes_asymmetric(a: Seq<char>, b: Seq<char>)
    requires
        precedes(a, b),
    ensures
        !precedes(b, a),
        a != b,
    decreases a.len(),
{
    if a.len() > 0 && b.len() > 0 && a[0] == b[0] {
        lemma_precedes_asymmetric(a.drop_first(), b.drop_first());
    }
}

pub proof fn lemma_precedes_total(a: Seq<char>, b: Seq<char>)
    ensures
        precedes(a, b) || precedes(b, a) || a == b,
    decreases a.len(),
{
    if a.len() > 0 && b.len() > 0 && a[0] == b[0] {
        lemma_precedes_total(a.drop_first(), b.drop_first());
        if a.drop_first() == b.drop_first() {
            assert(a =~= seq![a[0]] + a.drop_first());
            assert(b =~= seq![b[0]] + b.drop_first());
        }
    } else if a.len() == 0 && b.len() == 0 {
        assert(a =~= b);
    }
}

pub proof fn lemma_precedes_transitive(a: Seq<char>, b: Seq<char>, c: Seq<char>)
    requires
        precedes(a, b),
        precedes(b, c),
    ensures
        precedes(a, c),
    decreases a.len(),
{
    if a.len() > 0 && b.len() > 0 && c.len() > 0 && a[0] == b[0] && b[0] == c[0] {
        lemma_precedes_transitive(a.drop_first(), b.drop_first(), c.drop_first());
    }
}

fn before_from(a: &Vec<char>, b: &Vec<char>, from: usize) -> (res: bool)
    requires
        from <= a@.len(),
        from <= b@.len(),
    ensures
        res == precedes(a@.skip(from as int), b@.skip(from as int)),
    decreases a@.len() - from,
{
    if from == b.len() {
        return false;
    }
    if from == a.len() {
        return true;
    }
    assert(a@.skip(from as int).drop_first() =~= a@.skip(from as int + 1));
    assert(b@.skip(from as int).drop_first() =~= b@.skip(from as int + 1));
    if a[from] == b[from] {
        before_from(a, b, from + 1)
    } else {
        a[from] < b[from]
    }
}

/// Whether `a` comes strictly before `b` (see [`precedes`]).
pub fn before(a: &str, b: &str) -> (res: bool)
    ensures
        res == precedes(a@, b@),
{
    let left = chars_of(a);
    let right = chars_of(b);
    assert(a@.skip(0) =~= a@ && b@.skip(0) =~= b@);
    before_from(&left, &right, 0)
}

/// Whether `c` has the Unicode property `White_Space`.
pub open spec fn is_white(c: char) -> bool {
    let n = c as u32;
    ||| 9 <= n <= 13
    ||| n == 0x20
    ||| n == 0x85
    ||| n == 0xa0
    ||| n == 0x1680
    ||| 0x2000 <= n <= 0x200a
    ||| n == 0x2028
    ||| n == 0x2029
    ||| n == 0x202f
    ||| n == 0x205f
    ||| n == 0x3000
}

fn white(c: char) -> (res: bool)
    ensures
        res == is_white(c),
{
    let n: u32 = c as u32;
    (9 <= n && n <= 13) || n == 0x20 || n == 0x85 || n == 0xa0 || n == 0x1680 || (0x2000 <= n && n
        <= 0x200a) || n == 0x2028 || n == 0x2029 || n == 0x202f || n == 0x205f || n == 0x3000
}

/// `text` without the white space in front.
pub open spec fn trimmed_start(text: Seq<char>) -> Seq<char>
    decreases text.len(),
{
    if text.len() > 0 && is_white(text[0]) {
        trimmed_start(text.drop_first())
    } else {
        text
    }
}

/// `text` without the white space behind.
pub open spec fn trimmed_end(text: Seq<char>) -> Seq<char>
    decreases text.len(),
{
    if text.len() > 0 && is_white(text.last()) {
        trimmed_end(text.drop_last())
    } else {
        text
    }
}

/// `text` without the white space at either end.
pub open spec fn trimmed(text: Seq<char>) -> Seq<char> {
    trimmed_end(trimmed_start(text))
}

/// Removes the white space at both ends.
pub fn trim(text: &str) -> (res: String)
    ensures
        res@ == trimmed(text@),
{
    let chars = chars_of(text);
    let mut start: usize = 0;
    assert(chars@.skip(0) =~= chars@);
    while start < chars.len() && white(chars[start])
        invariant
            start <= chars@.len(),
            trimmed_start(chars@) == trimmed_start(chars@.skip(start as int)),
        decreases chars.len() - start,
    {
        assert(chars@.skip(start as int).drop_first() =~= chars@.skip(start as int + 1));
        start += 1;
    }
    let ghost middle = chars@.skip(start as int);
    assert(trimmed_start(chars@) == middle);
    let mut end: usize = chars.len();
    assert(chars@.subrange(start as int, end as int) =~= middle);
    while end > start && white(chars[end - 1])
        invariant
            start <= end <= chars@.len(),
            trimmed_end(middle) == trimmed_end(chars@.subrange(start as int, end as int)),
        decreases end - start,
    {
        let ghost now = chars@.subrange(start as int, end as int);
        assert(now.last() == chars@[end - 1]);
        assert(now.drop_last() =~= chars@.subrange(start as int, end as int - 1));
        end -= 1;
    }
    let ghost now = chars@.subrange(start as int, end as int);
    assert(now.len() > 0 ==> now.last() == chars@[end - 1]);
    text_of(vstd::slice::slice_subrange(chars.as_slice(), start, end))
}

/// Whether `text` begins with `prefix`.
pub fn starts_with(text: &str, prefix: &str) -> (res: bool)
    ensures
        res == prefix@.is_prefix_of(text@),
{
    let chars = chars_of(text);
    let wanted = chars_of(prefix);
    if wanted.len() > chars.len() {
        return false;
    }
    let mut i: usize = 0;
    while i < wanted.len()
        invariant
            i <= wanted@.len() <= chars@.len(),
            forall|j: int| 0 <= j < i ==> wanted@[j] == chars@[j],
            chars@ == text@,
            wanted@ == prefix@,
        decreases wanted.len() - i,
    {
        if chars[i] != wanted[i] {
            assert(text@.subrange(0, prefix@.len() as int)[i as int] != prefix@[i as int]);
            return false;
        }
        i += 1;
    }
    assert(prefix@ =~= text@.subrange(0, prefix@.len() as int));
    true
}

/// Whether `text` ends with `suffix`.
pub fn ends_with(text: &str, suffix: &str) -> (res: bool)
    ensures
        res == suffix@.is_suffix_of(text@),
{
    let chars = chars_of(text);
    let wanted = chars_of(suffix);
    if wanted.len() > chars.len() {
        return false;
    }
    let from: usize = chars.len() - wanted.len();
    let mut i: usize = 0;
    while i < wanted.len()
        invariant
            i <= wanted@.len() <= chars@.len(),
            from + wanted.len() == chars.len(),
            forall|j: int| 0 <= j < i ==> wanted@[j] == chars@[from + j],
            chars@ == text@,
            wanted@ == suffix@,
        decreases wanted.len() - i,
    {
        if chars[from + i] != wanted[i] {
            assert(text@.subrange(from as int, text@.len() as int)[i as int] != suffix@[i as int]);
            return false;
        }
        i += 1;
    }
    assert(suffix@ =~= text@.subrange(from as int, text@.len() as int));
    true
}

/// The part of `text` from character `from` up to character `to`.
pub fn part(text: &str, from: usize, to: usize) -> (res: String)
    requires
        from <= to <= text@.len(),
    ensures
        res@ == text@.subrange(from as int, to as int),
{
    let chars = chars_of(text);
    text_of(vstd::slice::slice_subrange(chars.as_slice(), from, to))
}

/// The position of the first of `texts` that reads `wanted`.
pub fn position(texts: &Vec<String>, wanted: &str) -> (res: Option<usize>)
    ensures
        match res {
            Some(i) => {
                &&& i < texts@.len()
                &&& texts@[i as int]@ == wanted@
                &&& forall|j: int| 0 <= j < i ==> texts@[j]@ != wanted@
            },
            None => forall|j: int| 0 <= j < texts@.len() ==> texts@[j]@ != wanted@,
        },
{
    let mut i: usize = 0;
    while i < texts.len()
        invariant
            i <= texts@.len(),
            forall|j: int| 0 <= j < i ==> texts@[j]@ != wanted@,
        decreases texts.len() - i,
    {
        if same(texts[i].as_str(), wanted) {
            return Some(i);
        }
        i += 1;
    }
    None
}

/// Copies a list of texts.
pub fn copy_all(texts: &Vec<String>) -> (res: Vec<String>)
    ensures
        views(res@) == views(texts@),
        res@.len() == texts@.len(),
{
    let mut out: Vec<String> = Vec::new();
    let mut i: usize = 0;
    while i < texts.len()
        invariant
            i <= texts@.len(),
            out@.len() == i,
            forall|j: int| 0 <= j < i ==> out@[j]@ == texts@[j]@,
        decreases texts.len() - i,
    {
        out.push(copy(texts[i].as_str()));
        i += 1;
    }
    assert(views(out@) =~= views(texts@));
    out
}

/// What is left of a text without white space around it neither begins nor
/// ends with white space.
pub proof fn lemma_trimmed_ends(text: Seq<char>)
    ensures
        trimmed(text).len() > 0 ==> !is_white(trimmed(text)[0]) && !is_white(trimmed(text).last()),
{
    lemma_trimmed_start(text);
    lemma_trimmed_end(trimmed_start(text));
}

/// Trimming takes white space off both ends and nothing else: what is left is a
/// stretch of the text, and all in front of it and behind it is white space.
pub proof fn lemma_trimmed_is_the_middle(text: Seq<char>) -> (ends: (int, int))
    ensures
        0 <= ends.0 <= ends.1 <= text.len(),
        trimmed(text) == text.subrange(ends.0, ends.1),
        forall|i: int|
            0 <= i < text.len() && !(ends.0 <= i < ends.1) ==> is_white(#[trigger] text[i]),
        ends.0 < ends.1 ==> !is_white(text[ends.0]) && !is_white(text[ends.1 - 1]),
{
    let from = lemma_start_cut(text);
    let rest = trimmed_start(text);
    let upto = lemma_end_cut(rest);
    assert(trimmed(text) =~= text.subrange(from, from + upto));
    assert forall|i: int| 0 <= i < text.len() && !(from <= i < from + upto) implies is_white(
        #[trigger] text[i],
    ) by {
        if i >= from + upto {
            assert(rest[i - from] == text[i]);
        }
    }
    lemma_trimmed_ends(text);
    (from, from + upto)
}

proof fn lemma_start_cut(text: Seq<char>) -> (from: int)
    ensures
        0 <= from <= text.len(),
        trimmed_start(text) == text.skip(from),
        forall|i: int| 0 <= i < from ==> is_white(#[trigger] text[i]),
    decreases text.len(),
{
    if text.len() > 0 && is_white(text[0]) {
        let rest = text.drop_first();
        let from = lemma_start_cut(rest);
        assert(rest.skip(from) =~= text.skip(from + 1));
        assert forall|i: int| 0 <= i < from + 1 implies is_white(#[trigger] text[i]) by {
            if i > 0 {
                assert(rest[i - 1] == text[i]);
            }
        }
        from + 1
    } else {
        assert(text.skip(0) =~= text);
        0
    }
}

proof fn lemma_end_cut(text: Seq<char>) -> (upto: int)
    ensures
        0 <= upto <= text.len(),
        trimmed_end(text) == text.take(upto),
        forall|i: int| upto <= i < text.len() ==> is_white(#[trigger] text[i]),
    decreases text.len(),
{
    if text.len() > 0 && is_white(text.last()) {
        let rest = text.drop_last();
        let upto = lemma_end_cut(rest);
        assert(rest.take(upto) =~= text.take(upto));
        assert forall|i: int| upto <= i < text.len() implies is_white(#[trigger] text[i]) by {
            if i < text.len() - 1 {
                assert(rest[i] == text[i]);
            }
        }
        upto
    } else {
        assert(text.take(text.len() as int) =~= text);
        text.len() as int
    }
}

/// The blank, the tabs, the ends of lines and the wide spaces are white space;
/// no printed character of ASCII is.
pub proof fn lemma_white_space(c: char)
    ensures
        is_white(' ') && is_white('\t') && is_white('\n') && is_white('\r'),
        is_white('\u{0b}') && is_white('\u{0c}') && is_white('\u{85}') && is_white('\u{a0}'),
        is_white('\u{1680}') && is_white('\u{2000}') && is_white('\u{200a}'),
        is_white('\u{2028}') && is_white('\u{2029}') && is_white('\u{202f}'),
        is_white('\u{205f}') && is_white('\u{3000}'),
        '!' <= c <= '~' ==> !is_white(c),
{
}

proof fn lemma_trimmed_start(text: Seq<char>)
    ensures
        trimmed_start(text).len() > 0 ==> !is_white(trimmed_start(text)[0]),
    decreases text.len(),
{
    if text.len() > 0 && is_white(text[0]) {
        lemma_trimmed_start(text.drop_first());
    }
}

proof fn lemma_trimmed_end(text: Seq<char>)
    ensures
        trimmed_end(text).len() > 0 ==> !is_white(trimmed_end(text).last()) && trimmed_end(text)[0]
            == text[0],
    decreases text.len(),
{
    if text.len() > 0 && is_white(text.last()) {
        lemma_trimmed_end(text.drop_last());
    }
}

/// The words of a text: what stands between stretches of white space.
pub open spec fn words_of(text: Seq<char>) -> Seq<Seq<char>>
    decreases text.len(),
{
    if text.len() == 0 {
        seq![]
    } else {
        let words = words_of(text.drop_last());
        let c = text.last();
        if is_white(c) {
            words
        } else if text.len() > 1 && !is_white(text[text.len() - 2]) {
            words.drop_last().push(words.last().push(c))
        } else {
            words.push(seq![c])
        }
    }
}

proof fn lemma_word_is_open(text: Seq<char>)
    requires
        text.len() > 0,
        !is_white(text.last()),
    ensures
        words_of(text).len() > 0,
{
}

proof fn lemma_words_hold_characters(text: Seq<char>)
    ensures
        forall|i: int| 0 <= i < words_of(text).len() ==> (#[trigger] words_of(text)[i]).len() > 0,
    decreases text.len(),
{
    if text.len() > 0 {
        lemma_words_hold_characters(text.drop_last());
        if text.len() > 1 && !is_white(text[text.len() - 2]) {
            lemma_word_is_open(text.drop_last());
        }
    }
}

/// White space between two texts parts their words; a text without any is one
/// word, and one of nothing else has none.
pub proof fn lemma_words(a: Seq<char>, space: char, b: Seq<char>)
    requires
        is_white(space),
    ensures
        words_of(a + seq![space] + b) == words_of(a) + words_of(b),
        b.len() > 0 && (forall|i: int| 0 <= i < b.len() ==> !is_white(#[trigger] b[i]))
            ==> words_of(b) == seq![b],
        (forall|i: int| 0 <= i < b.len() ==> is_white(#[trigger] b[i])) ==> words_of(b).len() == 0,
    decreases b.len(),
{
    let text = a + seq![space] + b;
    if b.len() == 0 {
        assert(text.drop_last() =~= a);
        assert(words_of(text) =~= words_of(a) + words_of(b));
    } else {
        let front = b.drop_last();
        lemma_words(a, space, front);
        assert(text.drop_last() =~= a + seq![space] + front);
        assert(text.last() == b.last());
        assert(forall|i: int| 0 <= i < front.len() ==> #[trigger] front[i] == b[i]);
        if !is_white(b.last()) {
            if b.len() > 1 {
                assert(text[text.len() - 2] == b[b.len() - 2]);
                if !is_white(b[b.len() - 2]) {
                    lemma_word_is_open(front);
                    assert(words_of(text) =~= words_of(a) + words_of(b));
                    if forall|i: int| 0 <= i < b.len() ==> !is_white(#[trigger] b[i]) {
                        assert(words_of(front) == seq![front]);
                        assert(front.push(b.last()) =~= b);
                        assert(words_of(b) =~= seq![b]);
                    }
                } else {
                    assert(words_of(text) =~= words_of(a) + words_of(b));
                }
            } else {
                assert(text[text.len() - 2] == space);
                assert(words_of(text) =~= words_of(a) + words_of(b));
                assert(seq![b.last()] =~= b);
                assert(words_of(b) =~= seq![b]);
            }
        } else {
            assert(words_of(text) =~= words_of(a) + words_of(b));
        }
    }
}

/// Splits a text into its words. None of them is empty.
pub fn split_words(text: &str) -> (res: Vec<String>)
    ensures
        views(res@) == words_of(text@),
        forall|i: int| 0 <= i < res@.len() ==> (#[trigger] res@[i])@.len() > 0,
{
    let chars = chars_of(text);
    let mut words: Vec<String> = Vec::new();
    let mut word = String::new();
    let mut i: usize = 0;
    assert(views(words@) =~= seq![]);
    assert(chars@.take(0) =~= seq![]);
    while i < chars.len()
        invariant
            i <= chars@.len(),
            words_of(chars@.take(i as int)) == if i > 0 && !is_white(chars@[i - 1]) {
                views(words@).push(word@)
            } else {
                views(words@)
            },
            i == 0 || is_white(chars@[i - 1]) ==> word@.len() == 0,
        decreases chars.len() - i,
    {
        let ghost now = chars@.take(i as int + 1);
        let ghost words_before = views(words@);
        let ghost word_before = word@;
        assert(now.drop_last() =~= chars@.take(i as int));
        assert(now.last() == chars@[i as int]);
        assert(i > 0 ==> now[now.len() - 2] == chars@[i - 1]);
        let c = chars[i];
        if white(c) {
            if i > 0 && !white(chars[i - 1]) {
                words.push(word);
                word = String::new();
                assert(views(words@) =~= words_before.push(word_before));
            }
        } else {
            word.push(c);
            assert(words_before.push(word_before).drop_last() =~= words_before);
            assert(i == 0 || is_white(chars@[i - 1]) ==> word@ =~= seq![c]);
        }
        i += 1;
    }
    assert(chars@.take(chars@.len() as int) =~= text@);
    if i > 0 && !white(chars[i - 1]) {
        let ghost words_before = views(words@);
        let ghost last = word@;
        words.push(word);
        assert(views(words@) =~= words_before.push(last));
    }
    proof {
        lemma_words_hold_characters(text@);
        assert forall|k: int| 0 <= k < words@.len() implies (#[trigger] words@[k])@.len() > 0 by {
            assert(views(words@)[k] == words@[k]@);
        }
    }
    words
}

} // verus!
