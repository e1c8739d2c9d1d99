//! Values under names, kept in the order of the names.

use vstd::prelude::*;

use crate::double::Double;
use crate::json::{Json, JsonView};
use crate::text;

verus! {

/// One entry of a [`Table`].
#[derive(Debug)]
pub struct Entry<T> {
    pub name: String,
    pub value: T,
}

/// A map from names to values, in ascending order of the names.
#[derive(Debug)]
pub struct Table<T> {
    pub entries: Vec<Entry<T>>,
}

/// The entries of a table, in order.
pub type Rows<T> = Seq<(Seq<char>, T)>;

impl<T> View for Table<T> {
    type V = Seq<(Seq<char>, T)>;

    open spec fn view(&self) -> Seq<(Seq<char>, T)> {
        self.entries@.map_values(|e: Entry<T>| (e.name@, e.value))
    }
}

/// The value under `name`.
pub open spec fn value_of<T>(rows: Rows<T>, name: Seq<char>) -> Option<T>
    decreases rows.len(),
{
    if rows.len() == 0 {
        None
    } else if rows[0].0 == name {
        Some(rows[0].1)
    } else {
        value_of(rows.drop_first(), name)
    }
}

/// The rows with `value` under `name`.
pub open spec fn with_row<T>(rows: Rows<T>, name: Seq<char>, value: T) -> Rows<T>
    decreases rows.len(),
{
    if rows.len() == 0 {
        seq![(name, value)]
    } else if rows[0].0 == name {
        seq![(name, value)] + rows.drop_first()
    } else if text::precedes(name, rows[0].0) {
        seq![(name, value)] + rows
    } else {
        seq![rows[0]] + with_row(rows.drop_first(), name, value)
    }
}

/// The rows that come from setting the first `n` names to their values.
pub open spec fn rows_of<T>(names: Seq<Seq<char>>, values: Seq<T>, n: int) -> Rows<T>
    decreases n,
{
    if n <= 0 {
        seq![]
    } else {
        with_row(rows_of(names, values, n - 1), names[n - 1], values[n - 1])
    }
}

/// Whether the names stand in strictly ascending order.
pub open spec fn in_order<T>(rows: Rows<T>) -> bool {
    forall|i: int, j: int|
        0 <= i < j < rows.len() ==> text::precedes(#[trigger] rows[i].0, #[trigger] rows[j].0)
}

/// A value that was set reads back; the other names read as before.
pub proof fn lemma_value_of_with_row<T>(rows: Rows<T>, name: Seq<char>, value: T, other: Seq<char>)
    ensures
        value_of(with_row(rows, name, value), name) == Some(value),
        other != name ==> value_of(with_row(rows, name, value), other) == value_of(rows, other),
    decreases rows.len(),
{
    let result = with_row(rows, name, value);
    if rows.len() == 0 {
        assert(result[0] == (name, value));
        assert(result.drop_first() =~= seq![]);
        assert(value_of(result.drop_first(), other) is None);
    } else if rows[0].0 == name {
        assert(result[0] == (name, value));
        assert(result.drop_first() =~= rows.drop_first());
    } else if text::precedes(name, rows[0].0) {
        assert(result[0] == (name, value));
        assert(result.drop_first() =~= rows);
    } else {
        lemma_value_of_with_row(rows.drop_first(), name, value, other);
        assert(result[0] == rows[0]);
        assert(result.drop_first() =~= with_row(rows.drop_first(), name, value));
    }
}

/// Setting a value keeps the names in order, and adds at most this name.
pub proof fn lemma_with_row_in_order<T>(rows: Rows<T>, name: Seq<char>, value: T)
    requires
        in_order(rows),
    ensures
        in_order(with_row(rows, name, value)),
        forall|i: int|
            0 <= i < with_row(rows, name, value).len() ==> (#[trigger] with_row(rows, name, value)[i]).0
                == name || (exists|k: int|
                0 <= k < rows.len() && with_row(rows, name, value)[i].0 == (#[trigger] rows[k]).0),
    decreases rows.len(),
{
    let result = with_row(rows, name, value);
    if rows.len() == 0 {
        assert(result.len() == 1);
    } else if rows[0].0 == name {
        assert forall|i: int, j: int| 0 <= i < j < result.len() implies text::precedes(
            #[trigger] result[i].0,
            #[trigger] result[j].0,
        ) by {
            assert(result[i].0 == rows[i].0 && result[j].0 == rows[j].0);
        }
        assert forall|i: int| 0 <= i < result.len() implies (#[trigger] result[i]).0 == name || (
        exists|k: int| 0 <= k < rows.len() && result[i].0 == (#[trigger] rows[k]).0) by {
            assert(result[i].0 == rows[i].0);
        }
    } else if text::precedes(name, rows[0].0) {
        assert forall|i: int, j: int| 0 <= i < j < result.len() implies text::precedes(
            #[trigger] result[i].0,
            #[trigger] result[j].0,
        ) by {
            assert(result[j] == rows[j - 1]);
            if i == 0 {
                if j > 1 {
                    text::lemma_precedes_transitive(name, rows[0].0, rows[j - 1].0);
                }
            } else {
                assert(result[i] == rows[i - 1]);
            }
        }
        assert forall|i: int| 0 <= i < result.len() implies (#[trigger] result[i]).0 == name || (
        exists|k: int| 0 <= k < rows.len() && result[i].0 == (#[trigger] rows[k]).0) by {
            if i > 0 {
                assert(result[i].0 == rows[i - 1].0);
            }
        }
    } else {
        let rest = rows.drop_first();
        assert forall|i: int, j: int| 0 <= i < j < rest.len() implies text::precedes(
            #[trigger] rest[i].0,
            #[trigger] rest[j].0,
        ) by {
            assert(rest[i] == rows[i + 1] && rest[j] == rows[j + 1]);
        }
        lemma_with_row_in_order(rest, name, value);
        let inner = with_row(rest, name, value);
        text::lemma_precedes_total(name, rows[0].0);
        assert forall|i: int| 0 <= i < inner.len() implies text::precedes(
            rows[0].0,
            #[trigger] inner[i].0,
        ) by {
            if inner[i].0 != name {
                let k = choose|k: int| 0 <= k < rest.len() && inner[i].0 == (#[trigger] rest[k]).0;
                assert(rest[k] == rows[k + 1]);
                assert(text::precedes(rows[0].0, rows[k + 1].0));
            }
        }
        assert forall|i: int, j: int| 0 <= i < j < result.len() implies text::precedes(
            #[trigger] result[i].0,
            #[trigger] result[j].0,
        ) by {
            assert(result[j] == inner[j - 1]);
            if i > 0 {
                assert(result[i] == inner[i - 1]);
            }
        }
        assert forall|i: int| 0 <= i < result.len() implies (#[trigger] result[i]).0 == name || (
        exists|k: int| 0 <= k < rows.len() && result[i].0 == (#[trigger] rows[k]).0) by {
            if i == 0 {
                assert(result[0].0 == rows[0].0);
            } else {
                assert(result[i] == inner[i - 1]);
                if inner[i - 1].0 != name {
                    let k = choose|k: int|
                        0 <= k < rest.len() && inner[i - 1].0 == (#[trigger] rest[k]).0;
                    assert(rest[k] == rows[k + 1]);
                }
            }
        }
    }
}

/// After a value is set, a table holds that entry, every entry that it held
/// under another name, and nothing else.
pub proof fn lemma_with_row_holds<T>(rows: Rows<T>, name: Seq<char>, value: T)
    requires
        in_order(rows),
    ensures
        forall|r: (Seq<char>, T)| #[trigger]
            with_row(rows, name, value).contains(r) <==> r == (name, value) || (rows.contains(r)
                && r.0 != name),
    decreases rows.len(),
{
    let result = with_row(rows, name, value);
    if rows.len() == 0 {
        assert(result[0] == (name, value));
    } else {
        let rest = rows.drop_first();
        assert forall|i: int, j: int| 0 <= i < j < rest.len() implies text::precedes(
            #[trigger] rest[i].0,
            #[trigger] rest[j].0,
        ) by {
            assert(rest[i] == rows[i + 1] && rest[j] == rows[j + 1]);
        }
        assert forall|r: (Seq<char>, T)| #[trigger] rows.contains(r) <==> r == rows[0]
            || rest.contains(r) by {
            lemma_first_or_rest(rows, r);
        }
        if rows[0].0 == name {
            assert(result.drop_first() =~= rest);
            assert forall|r: (Seq<char>, T)| #[trigger] result.contains(r) <==> r == (name, value)
                || (rows.contains(r) && r.0 != name) by {
                lemma_first_or_rest(result, r);
                if rest.contains(r) {
                    let k = choose|k: int| 0 <= k < rest.len() && rest[k] == r;
                    assert(text::precedes(rows[0].0, rows[k + 1].0));
                    text::lemma_precedes_asymmetric(rows[0].0, rows[k + 1].0);
                }
            }
        } else if text::precedes(name, rows[0].0) {
            assert(result.drop_first() =~= rows);
            assert forall|r: (Seq<char>, T)| #[trigger] result.contains(r) <==> r == (name, value)
                || (rows.contains(r) && r.0 != name) by {
                lemma_first_or_rest(result, r);
                if rest.contains(r) {
                    let k = choose|k: int| 0 <= k < rest.len() && rest[k] == r;
                    assert(text::precedes(rows[0].0, rows[k + 1].0));
                    text::lemma_precedes_transitive(name, rows[0].0, rows[k + 1].0);
                    text::lemma_precedes_asymmetric(name, rows[k + 1].0);
                }
            }
        } else {
            lemma_with_row_holds(rest, name, value);
            assert(result.drop_first() =~= with_row(rest, name, value));
            assert forall|r: (Seq<char>, T)| #[trigger] result.contains(r) <==> r == (name, value)
                || (rows.contains(r) && r.0 != name) by {
                lemma_first_or_rest(result, r);
                assert(rows.contains(r) <==> r == rows[0] || rest.contains(r));
                assert(with_row(rest, name, value).contains(r) <==> r == (name, value) || (
                rest.contains(r) && r.0 != name));
            }
        }
    }
}

proof fn lemma_first_or_rest<T>(rows: Rows<T>, r: (Seq<char>, T))
    requires
        rows.len() > 0,
    ensures
        rows.contains(r) <==> r == rows[0] || rows.drop_first().contains(r),
{
    let rest = rows.drop_first();
    if rows.contains(r) && r != rows[0] {
        let k = choose|k: int| 0 <= k < rows.len() && rows[k] == r;
        assert(rest[k - 1] == r);
    }
    if rest.contains(r) {
        let k = choose|k: int| 0 <= k < rest.len() && rest[k] == r;
        assert(rows[k + 1] == r);
    }
}

/// What stands in a table in order is what is found under its name, and the
/// other way round.
pub proof fn lemma_found_is_held<T>(rows: Rows<T>, name: Seq<char>, value: T)
    requires
        in_order(rows),
    ensures
        value_of(rows, name) == Some(value) <==> rows.contains((name, value)),
    decreases rows.len(),
{
    if rows.len() > 0 {
        let rest = rows.drop_first();
        assert forall|i: int, j: int| 0 <= i < j < rest.len() implies text::precedes(
            #[trigger] rest[i].0,
            #[trigger] rest[j].0,
        ) by {
            assert(rest[i] == rows[i + 1] && rest[j] == rows[j + 1]);
        }
        lemma_found_is_held(rest, name, value);
        lemma_first_or_rest(rows, (name, value));
        if rows[0].0 == name && rest.contains((name, value)) {
            let k = choose|k: int| 0 <= k < rest.len() && rest[k] == (name, value);
            assert(text::precedes(rows[0].0, rows[k + 1].0));
            text::lemma_precedes_asymmetric(rows[0].0, rows[k + 1].0);
        }
    }
}

/// A table of names that do not repeat holds each name with its value, and
/// nothing else.
pub proof fn lemma_rows_of_holds<T>(names: Seq<Seq<char>>, values: Seq<T>, n: int)
    requires
        0 <= n <= names.len(),
        n <= values.len(),
        forall|a: int, b: int| 0 <= a < b < n ==> names[a] != names[b],
    ensures
        in_order(rows_of(names, values, n)),
        forall|r: (Seq<char>, T)| #[trigger]
            rows_of(names, values, n).contains(r) <==> exists|i: int|
                0 <= i < n && r == (#[trigger] names[i], values[i]),
    decreases n,
{
    if n > 0 {
        lemma_rows_of_holds(names, values, n - 1);
        let before = rows_of(names, values, n - 1);
        lemma_with_row_in_order(before, names[n - 1], values[n - 1]);
        lemma_with_row_holds(before, names[n - 1], values[n - 1]);
        assert forall|r: (Seq<char>, T)| #[trigger]
            rows_of(names, values, n).contains(r) <==> exists|i: int|
                0 <= i < n && r == (#[trigger] names[i], values[i]) by {
            if before.contains(r) {
                let i = choose|i: int| 0 <= i < n - 1 && r == (#[trigger] names[i], values[i]);
                assert(r == (names[i], values[i]));
            }
            if exists|i: int| 0 <= i < n && r == (#[trigger] names[i], values[i]) {
                let i = choose|i: int| 0 <= i < n && r == (#[trigger] names[i], values[i]);
                if i < n - 1 {
                    assert(before.contains(r));
                }
            }
        }
    }
}

/// Where no name repeats, a table holds each name with its value and no name
/// else.
pub proof fn lemma_value_of_rows_of<T>(names: Seq<Seq<char>>, values: Seq<T>, n: int, i: int)
    requires
        0 <= i < n <= names.len(),
        forall|a: int, b: int| 0 <= a < b < n ==> names[a] != names[b],
    ensures
        value_of(rows_of(names, values, n), names[i]) == Some(values[i]),
    decreases n,
{
    lemma_value_of_with_row(rows_of(names, values, n - 1), names[n - 1], values[n - 1], names[i]);
    if i < n - 1 {
        lemma_value_of_rows_of(names, values, n - 1, i);
    }
}

/// Every name that was given has a value.
pub proof fn lemma_rows_of_has<T>(names: Seq<Seq<char>>, values: Seq<T>, n: int, i: int)
    requires
        0 <= i < n <= names.len(),
    ensures
        value_of(rows_of(names, values, n), names[i]) is Some,
    decreases n,
{
    lemma_value_of_with_row(rows_of(names, values, n - 1), names[n - 1], values[n - 1], names[i]);
    if i < n - 1 {
        lemma_rows_of_has(names, values, n - 1, i);
    }
}

impl<T> Table<T> {
    /// The table without entries.
    pub fn new() -> (res: Table<T>)
        ensures
            res@ == Seq::<(Seq<char>, T)>::empty(),
    {
        let res = Table { entries: Vec::new() };
        assert(res@ =~= Seq::empty());
        res
    }

    /// The place of `name`.
    pub fn find(&self, name: &str) -> (res: Option<usize>)
        ensures
            match res {
                Some(i) => {
                    &&& i < self.entries@.len()
                    &&& self@[i as int].0 == name@
                    &&& value_of(self@, name@) == Some(self.entries@[i as int].value)
                    &&& forall|j: int| 0 <= j < i ==> self@[j].0 != name@
                },
                None => {
                    &&& value_of(self@, name@) is None
                    &&& forall|j: int| 0 <= j < self@.len() ==> self@[j].0 != name@
                },
            },
    {
        let mut i: usize = 0;
        assert(self@.skip(0) =~= self@);
        while i < self.entries.len()
            invariant
                i <= self.entries@.len(),
                forall|j: int| 0 <= j < i ==> self@[j].0 != name@,
                value_of(self@, name@) == value_of(self@.skip(i as int), name@),
            decreases self.entries.len() - i,
        {
            assert(self@.skip(i as int)[0] == self@[i as int]);
            if text::same(self.entries[i].name.as_str(), name) {
                return Some(i);
            }
            assert(self@.skip(i as int).drop_first() =~= self@.skip(i as int + 1));
            i += 1;
        }
        None
    }

    /// Puts `value` under `name`.
    pub fn set(&mut self, name: &str, value: T)
        ensures
            final(self)@ == with_row(old(self)@, name@, value),
    {
        let ghost all = self@;
        let mut at: usize = 0;
        assert(all.skip(0) =~= all);
        assert(with_row(all, name@, value) =~= all.take(0) + with_row(all.skip(0), name@, value));
        while at < self.entries.len()
            invariant
                at <= self.entries@.len(),
                self@ == all,
                all == old(self)@,
                with_row(all, name@, value) == all.take(at as int) + with_row(
                    all.skip(at as int),
                    name@,
                    value,
                ),
            decreases self.entries.len() - at,
        {
            let ghost rest = all.skip(at as int);
            assert(rest[0] == all[at as int]);
            if text::same(self.entries[at].name.as_str(), name) {
                self.entries.set(at, Entry { name: text::copy(name), value });
                assert(self@ =~= all.take(at as int) + (seq![(name@, value)] + rest.drop_first()));
                return;
            }
            if text::before(name, self.entries[at].name.as_str()) {
                self.entries.insert(at, Entry { name: text::copy(name), value });
                assert(self@ =~= all.take(at as int) + (seq![(name@, value)] + rest));
                return;
            }
            proof {
                assert(rest.drop_first() =~= all.skip(at as int + 1));
                assert(all.take(at as int) + (seq![rest[0]] + with_row(
                    rest.drop_first(),
                    name@,
                    value,
                )) =~= all.take(at as int + 1) + with_row(all.skip(at as int + 1), name@, value));
            }
            at += 1;
        }
        assert(all.skip(at as int) =~= seq![]);
        self.entries.push(Entry { name: text::copy(name), value });
        assert(self@ =~= all.take(at as int) + seq![(name@, value)]);
    }
}

impl<T: Copy> Table<T> {
    /// The value under `name`.
    pub fn get(&self, name: &str) -> (res: Option<T>)
        ensures
            res == value_of(self@, name@),
    {
        match self.find(name) {
            Some(i) => Some(self.entries[i].value),
            None => None,
        }
    }

    /// The table that comes from setting each name to its value.
    pub fn of(names: &Vec<String>, values: &Vec<T>) -> (res: Table<T>)
        requires
            names@.len() <= values@.len(),
        ensures
            res@ == rows_of(text::views(names@), values@, names@.len() as int),
    {
        let mut res = Table::new();
        let mut i: usize = 0;
        while i < names.len()
            invariant
                i <= names@.len() <= values@.len(),
                res@ == rows_of(text::views(names@), values@, i as int),
            decreases names.len() - i,
        {
            res.set(names[i].as_str(), values[i]);
            i += 1;
        }
        res
    }
}

/// A table of numbers as a JSON object.
pub open spec fn numbers_json(rows: Rows<Double>) -> JsonView
    decreases rows.len(),
{
    if rows.len() == 0 {
        JsonView::empty()
    } else {
        numbers_json(rows.drop_last()).with(rows.last().0, JsonView::of_double(rows.last().1))
    }
}

/// A table of numbers as a JSON object has each number under its own name, and
/// nothing under any other name.
pub proof fn lemma_numbers_json(rows: Rows<Double>, name: Seq<char>)
    requires
        forall|i: int, j: int| 0 <= i < j < rows.len() ==> rows[i].0 != rows[j].0,
    ensures
        numbers_json(rows) is Object,
        forall|i: int|
            0 <= i < rows.len() ==> numbers_json(rows).field((#[trigger] rows[i]).0) == Some(
                JsonView::of_double(rows[i].1),
            ),
        (forall|i: int| 0 <= i < rows.len() ==> (#[trigger] rows[i]).0 != name) ==> numbers_json(
            rows,
        ).field(name) is None,
    decreases rows.len(),
{
    broadcast use crate::json::group_fields;

    if rows.len() > 0 {
        let front = rows.drop_last();
        lemma_numbers_json(front, name);
        assert forall|i: int| 0 <= i < rows.len() implies numbers_json(rows).field(
            (#[trigger] rows[i]).0,
        ) == Some(JsonView::of_double(rows[i].1)) by {
            if i < rows.len() - 1 {
                assert(front[i] == rows[i]);
                assert(rows[i].0 != rows[rows.len() - 1].0);
            }
        }
        if forall|i: int| 0 <= i < rows.len() ==> (#[trigger] rows[i]).0 != name {
            assert forall|i: int| 0 <= i < front.len() implies (#[trigger] front[i]).0 != name by {
                assert(front[i] == rows[i]);
            }
            assert(rows[rows.len() - 1].0 != name);
        }
    }
}

impl Table<Double> {
    /// The table as a JSON object.
    pub fn to_json(&self) -> (res: Json)
        ensures
            res@ == numbers_json(self@),
    {
        let mut res = Json::object();
        let mut i: usize = 0;
        assert(self@.take(0) =~= seq![]);
        while i < self.entries.len()
            invariant
                i <= self.entries@.len(),
                res@ == numbers_json(self@.take(i as int)),
            decreases self.entries.len() - i,
        {
            assert(self@.take(i as int + 1).drop_last() =~= self@.take(i as int));
            res = res.with(self.entries[i].name.as_str(), Json::of_double(self.entries[i].value));
            i += 1;
        }
        assert(self@.take(self@.len() as int) =~= self@);
        res
    }
}

} // verus!
