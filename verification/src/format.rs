//! Rupee amounts with Indian digit grouping: the last three digits form one
//! group, the digits before them pairs.

use vstd::prelude::*;

use crate::text;

verus! {

/// The digits before the last three in pairs from the right, each pair
/// followed by a comma.
pub open spec fn grouped_head(head: Seq<char>) -> Seq<char>
    decreases head.len(),
{
    if head.len() <= 2 {
        head + seq![',']
    } else {
        grouped_head(head.take(head.len() - 2)) + head.skip(head.len() - 2) + seq![',']
    }
}

/// Digits with Indian grouping.
pub open spec fn grouped(digits: Seq<char>) -> Seq<char> {
    if digits.len() <= 3 {
        digits
    } else {
        grouped_head(digits.take(digits.len() - 3)) + digits.skip(digits.len() - 3)
    }
}

proof fn lemma_head_commas(head: Seq<char>, r: int)
    requires
        head.len() > 0,
        forall|i: int| 0 <= i < head.len() ==> #[trigger] head[i] != ',',
        0 <= r < grouped_head(head).len(),
    ensures
        grouped_head(head)[grouped_head(head).len() - 1 - r] == ',' <==> r % 3 == 0,
        grouped_head(head).len() == head.len() + (head.len() + 1) / 2,
    decreases head.len(),
{
    let all = grouped_head(head);
    if head.len() > 2 {
        let front = head.take(head.len() - 2);
        let rest = grouped_head(front);
        assert forall|i: int| 0 <= i < front.len() implies #[trigger] front[i] != ',' by {
            assert(front[i] == head[i]);
        }
        if rest.len() == 0 {
            assert(grouped_head(front).len() > 0);
        }
        lemma_head_commas(front, 0);
        assert(all.len() == rest.len() + 3);
        if r >= 3 {
            lemma_head_commas(front, r - 3);
            assert(all[all.len() - 1 - r] == rest[rest.len() - 1 - (r - 3)]);
        } else if r == 0 {
            assert(all[all.len() - 1] == ',');
        } else {
            assert(all[all.len() - 1 - r] == head[head.len() - r]);
        }
    } else {
        assert(all.len() == head.len() + 1);
        if r == 0 {
            assert(all[all.len() - 1] == ',');
        } else {
            assert(all[all.len() - 1 - r] == head[head.len() - r]);
        }
    }
}

/// Read from the right, grouped digits have a comma behind the first three and
/// then one behind every two more, and none anywhere else.
pub proof fn lemma_commas_in_their_places(digits: Seq<char>, r: int)
    requires
        forall|i: int| 0 <= i < digits.len() ==> #[trigger] digits[i] != ',',
        0 <= r < grouped(digits).len(),
    ensures
        grouped(digits)[grouped(digits).len() - 1 - r] == ',' <==> r >= 3 && r % 3 == 0,
        digits.len() <= 3 ==> grouped(digits).len() == digits.len(),
        digits.len() > 3 ==> grouped(digits).len() == digits.len() + (digits.len() - 2) / 2,
{
    let all = grouped(digits);
    if digits.len() > 3 {
        let front = digits.take(digits.len() - 3);
        let head = grouped_head(front);
        assert forall|i: int| 0 <= i < front.len() implies #[trigger] front[i] != ',' by {
            assert(front[i] == digits[i]);
        }
        assert(head.len() > 0);
        lemma_head_commas(front, 0);
        if r >= 3 {
            lemma_head_commas(front, r - 3);
            assert(all[all.len() - 1 - r] == head[head.len() - 1 - (r - 3)]);
        } else {
            assert(all[all.len() - 1 - r] == digits[digits.len() - 1 - r]);
        }
    } else {
        assert(all[all.len() - 1 - r] == digits[digits.len() - 1 - r]);
    }
}

/// An amount is its grouped digits behind the rupee sign, and behind the minus
/// sign before that where it is negative.
pub proof fn lemma_rupees(digits: Seq<char>)
    ensures
        rupees(false, digits)[0] == '\u{20b9}' && rupees(false, digits).skip(1) == grouped(digits),
        rupees(true, digits)[0] == '\u{2212}' && rupees(true, digits).skip(1) == rupees(
            false,
            digits,
        ),
{
    assert(rupees(false, digits).skip(1) =~= grouped(digits));
    assert(rupees(true, digits).skip(1) =~= rupees(false, digits));
}

fn group_head(chars: &Vec<char>, n: usize) -> (res: String)
    requires
        n <= chars@.len(),
    ensures
        res@ == grouped_head(chars@.take(n as int)),
    decreases n,
{
    let ghost head = chars@.take(n as int);
    if n <= 2 {
        let mut out = text::text_of(vstd::slice::slice_subrange(chars.as_slice(), 0, n));
        out.push(',');
        assert(out@ =~= head + seq![',']);
        out
    } else {
        let mut out = group_head(chars, n - 2);
        out.push(chars[n - 2]);
        out.push(chars[n - 1]);
        out.push(',');
        assert(head.take(n - 2) =~= chars@.take(n - 2));
        assert(out@ =~= grouped_head(head.take(n - 2)) + head.skip(n - 2) + seq![',']);
        out
    }
}

/// Groups digits the Indian way: `1177846` becomes `11,77,846`.
pub fn group_indian(digits: &str) -> (res: String)
    ensures
        res@ == grouped(digits@),
{
    let chars = text::chars_of(digits);
    let n: usize = chars.len();
    if n <= 3 {
        return text::copy(digits);
    }
    let mut out = group_head(&chars, n - 3);
    out.push(chars[n - 3]);
    out.push(chars[n - 2]);
    out.push(chars[n - 1]);
    assert(out@ =~= grouped(digits@));
    out
}

/// A whole rupee amount: its sign, and the digits of its magnitude.
#[derive(Debug)]
pub struct WholeRupees {
    pub negative: bool,
    pub digits: String,
}

/// The notation of a whole rupee amount.
pub open spec fn rupees(negative: bool, digits: Seq<char>) -> Seq<char> {
    if negative {
        seq!['\u{2212}', '\u{20b9}'] + grouped(digits)
    } else {
        seq!['\u{20b9}'] + grouped(digits)
    }
}

/// Writes a whole rupee amount with the rupee sign and Indian grouping, and
/// with the Unicode minus sign where it is negative.
pub fn format_inr(amount: &WholeRupees) -> (res: String)
    ensures
        res@ == rupees(amount.negative, amount.digits@),
{
    let digits = group_indian(amount.digits.as_str());
    let mut out = String::new();
    if amount.negative {
        out.push('\u{2212}');
    }
    out.push('\u{20b9}');
    out.append(digits.as_str());
    assert(out@ =~= rupees(amount.negative, amount.digits@));
    out
}

/// `text` without its commas.
pub open spec fn without_commas(text: Seq<char>) -> Seq<char>
    decreases text.len(),
{
    if text.len() == 0 {
        seq![]
    } else if text.last() == ',' {
        without_commas(text.drop_last())
    } else {
        without_commas(text.drop_last()).push(text.last())
    }
}

proof fn lemma_without_commas_concat(a: Seq<char>, b: Seq<char>)
    ensures
        without_commas(a + b) == without_commas(a) + without_commas(b),
    decreases b.len(),
{
    if b.len() == 0 {
        assert(a + b =~= a);
        assert(without_commas(a) + without_commas(b) =~= without_commas(a));
    } else {
        lemma_without_commas_concat(a, b.drop_last());
        assert((a + b).drop_last() =~= a + b.drop_last());
        assert((a + b).last() == b.last());
        assert(without_commas(a + b) =~= without_commas(a) + without_commas(b));
    }
}

proof fn lemma_without_commas_plain(a: Seq<char>)
    requires
        forall|i: int| 0 <= i < a.len() ==> (#[trigger] a[i]) != ',',
    ensures
        without_commas(a) == a,
    decreases a.len(),
{
    if a.len() > 0 {
        assert(a.last() == a[a.len() - 1]);
        assert forall|i: int| 0 <= i < a.drop_last().len() implies (#[trigger] a.drop_last()[i]) != ',' by {
            assert(a.drop_last()[i] == a[i]);
        }
        lemma_without_commas_plain(a.drop_last());
        assert(a.drop_last().push(a.last()) =~= a);
    } else {
        assert(without_commas(a) =~= a);
    }
}

proof fn lemma_head_keeps_digits(head: Seq<char>)
    requires
        forall|i: int| 0 <= i < head.len() ==> (#[trigger] head[i]) != ',',
    ensures
        without_commas(grouped_head(head)) == head,
    decreases head.len(),
{
    let comma = seq![','];
    assert(comma.drop_last() =~= seq![]);
    assert(without_commas(comma) =~= seq![]) by {
        assert(without_commas(comma.drop_last()) =~= seq![]);
    }
    if head.len() <= 2 {
        lemma_without_commas_plain(head);
        lemma_without_commas_concat(head, comma);
        assert(head + seq![] =~= head);
    } else {
        let front = head.take(head.len() - 2);
        let pair = head.skip(head.len() - 2);
        assert forall|i: int| 0 <= i < front.len() implies (#[trigger] front[i]) != ',' by {
            assert(front[i] == head[i]);
        }
        assert forall|i: int| 0 <= i < pair.len() implies (#[trigger] pair[i]) != ',' by {
            assert(pair[i] == head[head.len() - 2 + i]);
        }
        lemma_head_keeps_digits(front);
        lemma_without_commas_plain(pair);
        lemma_without_commas_concat(grouped_head(front), pair);
        lemma_without_commas_concat(grouped_head(front) + pair, comma);
        assert(front + pair + seq![] =~= head);
    }
}

/// Grouping changes nothing but commas: without them the digits are back.
pub proof fn lemma_grouping_keeps_digits(digits: Seq<char>)
    requires
        forall|i: int| 0 <= i < digits.len() ==> (#[trigger] digits[i]) != ',',
    ensures
        without_commas(grouped(digits)) == digits,
{
    if digits.len() <= 3 {
        lemma_without_commas_plain(digits);
    } else {
        let head = digits.take(digits.len() - 3);
        let tail = digits.skip(digits.len() - 3);
        assert forall|i: int| 0 <= i < head.len() implies (#[trigger] head[i]) != ',' by {
            assert(head[i] == digits[i]);
        }
        assert forall|i: int| 0 <= i < tail.len() implies (#[trigger] tail[i]) != ',' by {
            assert(tail[i] == digits[digits.len() - 3 + i]);
        }
        lemma_head_keeps_digits(head);
        lemma_without_commas_plain(tail);
        lemma_without_commas_concat(grouped_head(head), tail);
        assert(head + tail =~= digits);
    }
}

} // verus!
