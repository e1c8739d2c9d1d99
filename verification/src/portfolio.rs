//! The identity of a portfolio: a hash of its tickers and weights that does
//! not depend on the order in which they are given.

use sha2::{Digest, Sha256};
use vstd::prelude::*;

use crate::text;

verus! {

/// A ticker and its weight as it is written.
#[derive(Debug)]
pub struct WeightLine {
    pub ticker: String,
    pub weight: String,
}

/// What a [`WeightLine`] says: the ticker and the weight.
pub type Line = (Seq<char>, Seq<char>);

impl View for WeightLine {
    type V = (Seq<char>, Seq<char>);

    open spec fn view(&self) -> (Seq<char>, Seq<char>) {
        (self.ticker@, self.weight@)
    }
}

/// What the lines say.
pub open spec fn lines_view(lines: Seq<WeightLine>) -> Seq<Line> {
    lines.map_values(|l: WeightLine| l@)
}

/// The name of what SHA-256 makes of a message.
pub uninterp spec fn sha256(message: Seq<u8>) -> Seq<u8>;

/// Feeds a message to `sha2::Sha256` and takes its digest. Claimed: the digest
/// depends on the message alone and has 32 bytes. Which bytes they are is left
/// to the name.
#[verifier::external_body]
fn sha256_digest(message: &[u8]) -> (res: Vec<u8>)
    ensures
        res@ == sha256(message@),
        res@.len() == 32,
{
    let mut hasher = Sha256::new();
    hasher.update(message);
    hasher.finalize().to_vec()
}

/// The hexadecimal digit with value `d`.
pub open spec fn hex_digit(d: int) -> char {
    if d < 10 {
        (48 + d) as char
    } else {
        (87 + d) as char
    }
}

/// Two hexadecimal digits for each byte.
pub open spec fn hex(bytes: Seq<u8>) -> Seq<char>
    decreases bytes.len(),
{
    if bytes.len() == 0 {
        seq![]
    } else {
        hex(bytes.drop_last()).push(hex_digit(bytes.last() as int / 16)).push(
            hex_digit(bytes.last() as int % 16),
        )
    }
}

/// Each byte is written as two digits, the high one first, with small letters
/// for ten to fifteen.
pub proof fn lemma_hex(bytes: Seq<u8>, i: int)
    requires
        0 <= i < bytes.len(),
    ensures
        hex(bytes).len() == 2 * bytes.len(),
        hex(bytes)[2 * i] == hex_digit(bytes[i] as int / 16),
        hex(bytes)[2 * i + 1] == hex_digit(bytes[i] as int % 16),
        forall|d: int| 0 <= d < 10 ==> (#[trigger] hex_digit(d)) as int == '0' as int + d,
        forall|d: int| 10 <= d < 16 ==> (#[trigger] hex_digit(d)) as int == 'a' as int + (d - 10),
    decreases bytes.len(),
{
    let front = bytes.drop_last();
    lemma_hex_length(bytes);
    lemma_hex_length(front);
    if i < bytes.len() - 1 {
        lemma_hex(front, i);
        assert(front[i] == bytes[i]);
    }
}

fn digit_of(d: u8) -> (res: char)
    requires
        d < 16,
    ensures
        res == hex_digit(d as int),
{
    if d < 10 {
        (48u8 + d) as char
    } else {
        (87u8 + d) as char
    }
}

/// Writes bytes in lowercase hexadecimal.
pub fn hex_encode(bytes: &[u8]) -> (res: String)
    ensures
        res@ == hex(bytes@),
        res@.len() == 2 * bytes@.len(),
        forall|i: int| 0 <= i < res@.len() ==> is_hex(#[trigger] res@[i]),
{
    let mut out = String::new();
    let mut i: usize = 0;
    assert(bytes@.take(0) =~= seq![]);
    while i < bytes.len()
        invariant
            i <= bytes@.len(),
            out@ == hex(bytes@.take(i as int)),
        decreases bytes.len() - i,
    {
        let b: u8 = bytes[i];
        assert(bytes@.take(i as int + 1).drop_last() =~= bytes@.take(i as int));
        out.push(digit_of(b / 16));
        out.push(digit_of(b % 16));
        i += 1;
    }
    assert(bytes@.take(bytes@.len() as int) =~= bytes@);
    proof {
        lemma_hex_length(bytes@);
        lemma_hex_digits(bytes@);
    }
    out
}

/// No two rows of bytes are written alike.
pub proof fn lemma_hex_tells_bytes_apart(a: Seq<u8>, b: Seq<u8>)
    requires
        hex(a) == hex(b),
    ensures
        a == b,
    decreases a.len(),
{
    lemma_hex_length(a);
    lemma_hex_length(b);
    if a.len() > 0 {
        let (ha, hb) = (hex(a), hex(b));
        let n = ha.len() as int;
        assert(ha[n - 1] == hex_digit(a.last() as int % 16) && ha[n - 2] == hex_digit(
            a.last() as int / 16,
        ));
        assert(hb[n - 1] == hex_digit(b.last() as int % 16) && hb[n - 2] == hex_digit(
            b.last() as int / 16,
        ));
        assert(ha.take(n - 2) =~= hex(a.drop_last()));
        assert(hb.take(n - 2) =~= hex(b.drop_last()));
        lemma_hex_tells_bytes_apart(a.drop_last(), b.drop_last());
        assert(a =~= a.drop_last().push(a.last()));
        assert(b =~= b.drop_last().push(b.last()));
    } else {
        assert(a =~= b);
    }
}

proof fn lemma_hex_length(bytes: Seq<u8>)
    ensures
        hex(bytes).len() == 2 * bytes.len(),
    decreases bytes.len(),
{
    if bytes.len() > 0 {
        lemma_hex_length(bytes.drop_last());
    }
}

/// Whether a character is a lowercase hexadecimal digit.
pub open spec fn is_hex(c: char) -> bool {
    '0' <= c <= '9' || 'a' <= c <= 'f'
}

proof fn lemma_hex_digits(bytes: Seq<u8>)
    ensures
        forall|i: int| 0 <= i < hex(bytes).len() ==> is_hex(#[trigger] hex(bytes)[i]),
    decreases bytes.len(),
{
    if bytes.len() > 0 {
        lemma_hex_digits(bytes.drop_last());
        let front = hex(bytes.drop_last());
        let high = hex_digit(bytes.last() as int / 16);
        let low = hex_digit(bytes.last() as int % 16);
        assert(is_hex(high) && is_hex(low));
        assert forall|i: int| 0 <= i < hex(bytes).len() implies is_hex(
            #[trigger] hex(bytes)[i],
        ) by {
            if i < front.len() {
                assert(hex(bytes)[i] == front[i]);
            }
        }
    }
}

/// Where a line goes among lines in the order of their tickers: behind all
/// that do not come after it.
pub open spec fn place_for(lines: Seq<Line>, ticker: Seq<char>) -> int
    decreases lines.len(),
{
    if lines.len() == 0 {
        0
    } else if text::precedes(ticker, lines.last().0) {
        place_for(lines.drop_last(), ticker)
    } else {
        lines.len() as int
    }
}

/// The lines in the order of their tickers, those of the same ticker in the
/// order in which they are given.
pub open spec fn by_ticker(lines: Seq<Line>) -> Seq<Line>
    decreases lines.len(),
{
    if lines.len() == 0 {
        seq![]
    } else {
        let rest = by_ticker(lines.drop_last());
        rest.insert(place_for(rest, lines.last().0), lines.last())
    }
}

/// A line as it is hashed.
pub open spec fn written(line: Line) -> Seq<char> {
    line.0 + ":"@ + line.1
}

/// What is hashed: the lines in the order of their tickers, with commas
/// between them.
pub open spec fn hashed_text(lines: Seq<Line>) -> Seq<char> {
    text::joined(by_ticker(lines).map_values(|l: Line| written(l)), ","@)
}

/// The hash of a portfolio.
pub open spec fn hash_of(lines: Seq<Line>) -> Seq<char> {
    hex(sha256(vstd::utf8::encode_utf8(hashed_text(lines))))
}

proof fn lemma_place_for(lines: Seq<Line>, ticker: Seq<char>)
    ensures
        0 <= place_for(lines, ticker) <= lines.len(),
        place_for(lines, ticker) > 0 ==> !text::precedes(
            ticker,
            lines[place_for(lines, ticker) - 1].0,
        ),
        forall|k: int|
            place_for(lines, ticker) <= k < lines.len() ==> text::precedes(
                ticker,
                (#[trigger] lines[k]).0,
            ),
    decreases lines.len(),
{
    if lines.len() > 0 && text::precedes(ticker, lines.last().0) {
        lemma_place_for(lines.drop_last(), ticker);
        let place = place_for(lines, ticker);
        assert forall|k: int| place <= k < lines.len() implies text::precedes(
            ticker,
            (#[trigger] lines[k]).0,
        ) by {
            if k < lines.len() - 1 {
                assert(lines.drop_last()[k] == lines[k]);
            }
        }
    }
}

/// Puts the lines in the order of their tickers and hashes them: 64 lowercase
/// hexadecimal digits.
pub fn portfolio_hash(holdings: &Vec<WeightLine>) -> (res: String)
    ensures
        res@ == hash_of(lines_view(holdings@)),
        res@.len() == 64,
        forall|i: int| 0 <= i < res@.len() ==> is_hex(#[trigger] res@[i]),
{
    let ghost all = lines_view(holdings@);
    let mut order: Vec<usize> = Vec::new();
    let mut i: usize = 0;
    assert(all.take(0) =~= seq![]);
    assert(order@.map_values(|p: usize| all[p as int]) =~= seq![]);
    while i < holdings.len()
        invariant
            i <= holdings@.len(),
            all == lines_view(holdings@),
            forall|k: int| 0 <= k < order@.len() ==> (#[trigger] order@[k]) < holdings@.len(),
            order@.map_values(|p: usize| all[p as int]) == by_ticker(all.take(i as int)),
        decreases holdings.len() - i,
    {
        let ghost sorted = order@.map_values(|p: usize| all[p as int]);
        let ghost ticker = all[i as int].0;
        let mut at: usize = order.len();
        assert(sorted.take(at as int) =~= sorted);
        while at > 0 && text::before(
            holdings[i].ticker.as_str(),
            holdings[order[at - 1]].ticker.as_str(),
        )
            invariant
                i < holdings@.len(),
                all == lines_view(holdings@),
                at <= order@.len(),
                ticker == all[i as int].0,
                forall|k: int| 0 <= k < order@.len() ==> (#[trigger] order@[k]) < holdings@.len(),
                sorted == order@.map_values(|p: usize| all[p as int]),
                place_for(sorted, ticker) == place_for(sorted.take(at as int), ticker),
            decreases at,
        {
            assert(sorted.take(at as int).drop_last() =~= sorted.take(at as int - 1));
            assert(sorted.take(at as int).last() == all[order@[at - 1] as int]);
            at -= 1;
        }
        proof {
            if at > 0 {
                assert(sorted.take(at as int).last() == all[order@[at - 1] as int]);
            }
            assert(place_for(sorted, ticker) == at);
            assert(all.take(i as int + 1).drop_last() =~= all.take(i as int));
            assert(all.take(i as int + 1).last() == all[i as int]);
        }
        order.insert(at, i);
        assert(order@.map_values(|p: usize| all[p as int]) =~= sorted.insert(
            at as int,
            all[i as int],
        ));
        i += 1;
    }
    assert(all.take(all.len() as int) =~= all);
    let mut pieces: Vec<String> = Vec::new();
    let mut k: usize = 0;
    while k < order.len()
        invariant
            k <= order@.len(),
            all == lines_view(holdings@),
            forall|j: int| 0 <= j < order@.len() ==> (#[trigger] order@[j]) < holdings@.len(),
            pieces@.len() == k,
            forall|j: int|
                0 <= j < k ==> (#[trigger] pieces@[j])@ == written(all[order@[j] as int]),
        decreases order.len() - k,
    {
        let line = &holdings[order[k]];
        pieces.push(text::join3(line.ticker.as_str(), ":", line.weight.as_str()));
        k += 1;
    }
    assert(text::views(pieces@) =~= by_ticker(all).map_values(|l: Line| written(l)));
    let joined = text::join(&pieces, ",");
    let digest = sha256_digest(joined.as_str().as_bytes());
    hex_encode(digest.as_slice())
}

/// Whether the tickers stand in strictly ascending order.
pub open spec fn strictly_sorted(lines: Seq<Line>) -> bool {
    forall|i: int, j: int|
        0 <= i < j < lines.len() ==> text::precedes(#[trigger] lines[i].0, #[trigger] lines[j].0)
}

/// Whether no ticker occurs twice.
pub open spec fn distinct_tickers(lines: Seq<Line>) -> bool {
    forall|i: int, j: int| 0 <= i < j < lines.len() ==> #[trigger] lines[i].0 != #[trigger] lines[j].0
}

proof fn lemma_by_ticker(lines: Seq<Line>)
    requires
        distinct_tickers(lines),
    ensures
        by_ticker(lines).to_multiset() == lines.to_multiset(),
        by_ticker(lines).len() == lines.len(),
        strictly_sorted(by_ticker(lines)),
    decreases lines.len(),
{
    if lines.len() == 0 {
        assert(by_ticker(lines) =~= lines);
    } else {
        let front = lines.drop_last();
        let last = lines.last();
        lemma_by_ticker(front);
        let rest = by_ticker(front);
        let place = place_for(rest, last.0);
        lemma_place_for(rest, last.0);
        vstd::seq_lib::to_multiset_insert(rest, place, last);
        vstd::seq_lib::to_multiset_build(front, last);
        assert(front.push(last) =~= lines);
        let result = rest.insert(place, last);
        assert forall|k: int| 0 <= k < rest.len() implies (#[trigger] rest[k]).0 != last.0 by {
            vstd::seq_lib::to_multiset_contains(rest, rest[k]);
            vstd::seq_lib::to_multiset_contains(front, rest[k]);
            assert(rest.contains(rest[k]));
            assert(front.contains(rest[k]));
            let m = choose|m: int| 0 <= m < front.len() && front[m] == rest[k];
            assert(lines[m] == rest[k]);
            assert(lines[lines.len() - 1] == last);
        }
        assert forall|i: int, j: int| 0 <= i < j < result.len() implies text::precedes(
            #[trigger] result[i].0,
            #[trigger] result[j].0,
        ) by {
            let pi = if i < place {
                i
            } else {
                i - 1
            };
            let pj = if j < place {
                j
            } else {
                j - 1
            };
            if i != place {
                assert(result[i] == rest[pi]);
            }
            if j != place {
                assert(result[j] == rest[pj]);
            }
            if i == place {
                assert(text::precedes(last.0, rest[pj].0));
            } else if j == place {
                text::lemma_precedes_total(rest[place - 1].0, last.0);
                if i < place - 1 {
                    text::lemma_precedes_transitive(rest[i].0, rest[place - 1].0, last.0);
                }
            }
        }
    }
}

proof fn lemma_sorted_lines_unique(a: Seq<Line>, b: Seq<Line>)
    requires
        strictly_sorted(a),
        strictly_sorted(b),
        a.to_multiset() == b.to_multiset(),
    ensures
        a == b,
    decreases a.len(),
{
    vstd::seq_lib::to_multiset_len(a);
    vstd::seq_lib::to_multiset_len(b);
    assert(a.len() == b.len());
    if a.len() > 0 {
        let n = a.len() as int;
        vstd::seq_lib::to_multiset_contains(a, a.last());
        vstd::seq_lib::to_multiset_contains(b, a.last());
        vstd::seq_lib::to_multiset_contains(b, b.last());
        vstd::seq_lib::to_multiset_contains(a, b.last());
        assert(a.contains(a.last()) && b.contains(b.last()));
        assert(b.contains(a.last()));
        assert(a.contains(b.last()));
        let i = choose|i: int| 0 <= i < n && b[i] == a.last();
        let j = choose|j: int| 0 <= j < n && a[j] == b.last();
        if i < n - 1 && j < n - 1 {
            assert(text::precedes(b[i].0, b[n - 1].0));
            assert(text::precedes(a[j].0, a[n - 1].0));
            text::lemma_precedes_asymmetric(b[i].0, b[n - 1].0);
        }
        assert(a.last() == b.last());
        vstd::seq_lib::to_multiset_remove(a, n - 1);
        vstd::seq_lib::to_multiset_remove(b, n - 1);
        assert(a.remove(n - 1) =~= a.drop_last());
        assert(b.remove(n - 1) =~= b.drop_last());
        lemma_sorted_lines_unique(a.drop_last(), b.drop_last());
        assert(a =~= a.drop_last().push(a.last()));
        assert(b =~= b.drop_last().push(b.last()));
    } else {
        assert(a =~= b);
    }
}

proof fn lemma_distinct_in_any_order(a: Seq<Line>, b: Seq<Line>)
    requires
        a.to_multiset() == b.to_multiset(),
        distinct_tickers(a),
    ensures
        distinct_tickers(b),
{
    assert forall|i: int, j: int| 0 <= i < a.len() && 0 <= j < a.len() && i != j implies a[i]
        != a[j] by {
        if i < j {
            assert(a[i].0 != a[j].0);
        } else {
            assert(a[j].0 != a[i].0);
        }
    }
    assert(a.no_duplicates());
    a.lemma_multiset_has_no_duplicates();
    b.lemma_multiset_has_no_duplicates_conv();
    assert forall|i: int, j: int| 0 <= i < j < b.len() implies #[trigger] b[i].0
        != #[trigger] b[j].0 by {
        vstd::seq_lib::to_multiset_contains(b, b[i]);
        vstd::seq_lib::to_multiset_contains(b, b[j]);
        vstd::seq_lib::to_multiset_contains(a, b[i]);
        vstd::seq_lib::to_multiset_contains(a, b[j]);
        assert(b.contains(b[i]) && b.contains(b[j]));
        assert(a.contains(b[i]) && a.contains(b[j]));
        let m = choose|m: int| 0 <= m < a.len() && a[m] == b[i];
        let n = choose|n: int| 0 <= n < a.len() && a[n] == b[j];
        assert(b[i] != b[j]);
        if m < n {
            assert(a[m].0 != a[n].0);
        } else {
            assert(a[n].0 != a[m].0);
        }
    }
}

/// What is hashed of a portfolio whose tickers ascend: each ticker, a colon and
/// its weight, the first holding alone and each further one behind a comma.
pub proof fn lemma_hashed_text(lines: Seq<Line>, line: Line)
    requires
        strictly_sorted(lines.push(line)),
    ensures
        lines.len() == 0 ==> hashed_text(lines.push(line)) == line.0 + ":"@ + line.1,
        lines.len() > 0 ==> hashed_text(lines.push(line)) == hashed_text(lines) + ","@ + line.0
            + ":"@ + line.1,
{
    let all = lines.push(line);
    lemma_already_sorted(all);
    assert forall|i: int, j: int| 0 <= i < j < lines.len() implies text::precedes(
        (#[trigger] lines[i]).0,
        (#[trigger] lines[j]).0,
    ) by {
        assert(all[i] == lines[i] && all[j] == lines[j]);
        assert(text::precedes(all[i].0, all[j].0));
    }
    lemma_already_sorted(lines);
    let pieces = lines.map_values(|l: Line| written(l));
    assert(all.map_values(|l: Line| written(l)) =~= pieces.push(written(line)));
    text::lemma_joined(pieces, written(line), ","@);
    if lines.len() == 0 {
        assert(pieces.push(written(line)) =~= seq![written(line)]);
    } else {
        assert(hashed_text(all) =~= hashed_text(lines) + ","@ + line.0 + ":"@ + line.1);
    }
}

proof fn lemma_already_sorted(lines: Seq<Line>)
    requires
        strictly_sorted(lines),
    ensures
        by_ticker(lines) == lines,
    decreases lines.len(),
{
    if lines.len() > 0 {
        let front = lines.drop_last();
        assert forall|i: int, j: int| 0 <= i < j < front.len() implies text::precedes(
            (#[trigger] front[i]).0,
            (#[trigger] front[j]).0,
        ) by {
            assert(front[i] == lines[i] && front[j] == lines[j]);
            assert(text::precedes(lines[i].0, lines[j].0));
        }
        lemma_already_sorted(front);
        if front.len() > 0 {
            let n = front.len() as int;
            assert(text::precedes(lines[n - 1].0, lines[n].0));
            text::lemma_precedes_asymmetric(lines[n - 1].0, lines[n].0);
            assert(front.last() == lines[n - 1]);
            assert(place_for(front, lines.last().0) == n);
        }
        assert(by_ticker(lines) =~= lines);
    } else {
        assert(by_ticker(lines) =~= lines);
    }
}

/// The hash of a portfolio without repeated tickers does not depend on the
/// order of its holdings.
pub proof fn lemma_hash_ignores_order(a: Seq<Line>, b: Seq<Line>)
    requires
        a.to_multiset() == b.to_multiset(),
        distinct_tickers(a),
    ensures
        hash_of(a) == hash_of(b),
{
    lemma_distinct_in_any_order(a, b);
    lemma_by_ticker(a);
    lemma_by_ticker(b);
    lemma_sorted_lines_unique(by_ticker(a), by_ticker(b));
}

} // verus!
