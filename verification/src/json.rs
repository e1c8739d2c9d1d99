//! JSON values as the library reads and rewrites them.
//!
//! The fields of an object are kept in the order of their names and no name
//! occurs twice, so that two objects with the same fields are the same value.

use vstd::prelude::*;

use crate::double::Double;
use crate::message::{Message, PieceView};
use crate::text;

verus! {

/// A JSON number: its double-precision value, and its integer value where it
/// was written as an integer.
#[derive(Clone, Copy, Debug, PartialEq, Eq, Structural)]
pub struct JsonNumber {
    pub double: Double,
    pub integer: Option<i128>,
}

/// A JSON value.
#[derive(Debug)]
pub enum Json {
    Null,
    Bool(bool),
    Number(JsonNumber),
    Text(String),
    /// A text with numbers in it that are still to be written.
    Sentence(Message),
    Array(Vec<Json>),
    Object(Vec<Field>),
}

/// One field of a JSON object.
#[derive(Debug)]
pub struct Field {
    pub name: String,
    pub value: Json,
}

/// What a [`Json`] value means.
pub enum JsonView {
    Null,
    Bool(bool),
    Number(JsonNumber),
    Text(Seq<char>),
    Sentence(Seq<PieceView>),
    Array(Seq<JsonView>),
    Object(Seq<(Seq<char>, JsonView)>),
}

/// The fields of an object, in order.
pub type Fields = Seq<(Seq<char>, JsonView)>;

impl View for Json {
    type V = JsonView;

    open spec fn view(&self) -> JsonView {
        self.meaning()
    }
}

impl Json {
    /// The value without its representation.
    pub open spec fn meaning(self) -> JsonView
        decreases self,
    {
        match self {
            Json::Null => JsonView::Null,
            Json::Bool(b) => JsonView::Bool(b),
            Json::Number(n) => JsonView::Number(n),
            Json::Text(s) => JsonView::Text(s@),
            Json::Sentence(m) => JsonView::Sentence(m@),
            Json::Array(items) => JsonView::Array(
                Seq::new(
                    items@.len(),
                    |i: int|
                        if 0 <= i < items@.len() {
                            items@[i].meaning()
                        } else {
                            JsonView::Null
                        },
                ),
            ),
            Json::Object(fields) => JsonView::Object(
                Seq::new(
                    fields@.len(),
                    |i: int|
                        if 0 <= i < fields@.len() {
                            (fields@[i].name@, fields@[i].value.meaning())
                        } else {
                            (seq![], JsonView::Null)
                        },
                ),
            ),
        }
    }
}

/// The meaning of a list of values.
pub open spec fn items_view(items: Seq<Json>) -> Seq<JsonView> {
    items.map_values(|v: Json| v@)
}

/// The meaning of a list of fields.
pub open spec fn fields_view(fields: Seq<Field>) -> Fields {
    fields.map_values(|f: Field| (f.name@, f.value@))
}

pub broadcast proof fn lemma_array_view(items: Vec<Json>)
    ensures
        (#[trigger] Json::Array(items)@) == JsonView::Array(items_view(items@)),
{
    assert(Json::Array(items)@->Array_0 =~= items_view(items@));
}

pub broadcast proof fn lemma_object_view(fields: Vec<Field>)
    ensures
        (#[trigger] Json::Object(fields)@) == JsonView::Object(fields_view(fields@)),
{
    assert(Json::Object(fields)@->Object_0 =~= fields_view(fields@));
}

/// The value of the field called `name`.
pub open spec fn lookup(fields: Fields, name: Seq<char>) -> Option<JsonView>
    decreases fields.len(),
{
    if fields.len() == 0 {
        None
    } else if fields[0].0 == name {
        Some(fields[0].1)
    } else {
        lookup(fields.drop_first(), name)
    }
}

/// The fields with the one called `name` set to `value`, put in its place in
/// the order of names where there was none.
pub open spec fn inserted(fields: Fields, name: Seq<char>, value: JsonView) -> Fields
    decreases fields.len(),
{
    if fields.len() == 0 {
        seq![(name, value)]
    } else if fields[0].0 == name {
        seq![(name, value)] + fields.drop_first()
    } else if text::precedes(name, fields[0].0) {
        seq![(name, value)] + fields
    } else {
        seq![fields[0]] + inserted(fields.drop_first(), name, value)
    }
}

/// The fields without those called `name`.
pub open spec fn removed(fields: Fields, name: Seq<char>) -> Fields
    decreases fields.len(),
{
    if fields.len() == 0 {
        seq![]
    } else if fields[0].0 == name {
        removed(fields.drop_first(), name)
    } else {
        seq![fields[0]] + removed(fields.drop_first(), name)
    }
}

/// The fields with every one of `more` set in turn.
pub open spec fn merged(fields: Fields, more: Fields) -> Fields
    decreases more.len(),
{
    if more.len() == 0 {
        fields
    } else {
        inserted(merged(fields, more.drop_last()), more.last().0, more.last().1)
    }
}

/// Whether the names stand in strictly ascending order.
pub open spec fn ordered(fields: Fields) -> bool {
    forall|i: int, j: int|
        0 <= i < j < fields.len() ==> text::precedes(#[trigger] fields[i].0, #[trigger] fields[j].0)
}

impl JsonView {
    /// The value of a field of an object, `None` for any other value.
    pub open spec fn field(self, name: Seq<char>) -> Option<JsonView> {
        match self {
            JsonView::Object(fields) => lookup(fields, name),
            _ => None,
        }
    }

    /// The value at the end of a chain of field names.
    pub open spec fn at(self, path: Seq<Seq<char>>) -> Option<JsonView>
        decreases path.len(),
    {
        if path.len() == 0 {
            Some(self)
        } else {
            match self.field(path[0]) {
                Some(inner) => inner.at(path.drop_first()),
                None => None,
            }
        }
    }

    /// The double-precision value of a number.
    pub open spec fn double(self) -> Option<Double> {
        match self {
            JsonView::Number(n) => Some(n.double),
            _ => None,
        }
    }

    /// The characters of a text.
    pub open spec fn text(self) -> Option<Seq<char>> {
        match self {
            JsonView::Text(s) => Some(s),
            _ => None,
        }
    }

    /// The object with the field called `name` set to `value`; any other value
    /// as it is.
    pub open spec fn with(self, name: Seq<char>, value: JsonView) -> JsonView {
        match self {
            JsonView::Object(fields) => JsonView::Object(inserted(fields, name, value)),
            other => other,
        }
    }

    /// The object without fields.
    pub open spec fn empty() -> JsonView {
        JsonView::Object(seq![])
    }

    /// A number as a JSON value: `null` where it is infinite or NaN.
    pub open spec fn of_double(x: Double) -> JsonView {
        if x.finite() {
            JsonView::Number(JsonNumber { double: x, integer: None })
        } else {
            JsonView::Null
        }
    }

    /// A whole number as a JSON value.
    pub open spec fn of_integer(n: int) -> JsonView {
        JsonView::Number(
            JsonNumber { double: crate::double::double_of_integer(n), integer: Some(n as i128) },
        )
    }

    /// A text, or `null` where there is none.
    pub open spec fn of_optional_text(text: Option<Seq<char>>) -> JsonView {
        match text {
            Some(s) => JsonView::Text(s),
            None => JsonView::Null,
        }
    }

    /// A list of texts.
    pub open spec fn of_texts(texts: Seq<Seq<char>>) -> JsonView {
        JsonView::Array(texts.map_values(|s: Seq<char>| JsonView::Text(s)))
    }

    /// A list of numbers.
    pub open spec fn of_doubles(values: Seq<Double>) -> JsonView {
        JsonView::Array(values.map_values(|x: Double| JsonView::of_double(x)))
    }

    /// Whether every object inside has its names in ascending order.
    pub open spec fn well_formed(self) -> bool
        decreases self,
    {
        match self {
            JsonView::Array(items) => forall|i: int|
                0 <= i < items.len() ==> (#[trigger] items[i]).well_formed(),
            JsonView::Object(fields) => {
                &&& ordered(fields)
                &&& forall|i: int| 0 <= i < fields.len() ==> (#[trigger] fields[i]).1.well_formed()
            },
            _ => true,
        }
    }
}

/// The position of the first field called `name`.
pub fn find(fields: &Vec<Field>, name: &str) -> (res: Option<usize>)
    ensures
        match res {
            Some(i) => {
                &&& i < fields@.len()
                &&& fields@[i as int].name@ == name@
                &&& lookup(fields_view(fields@), name@) == Some(fields@[i as int].value@)
                &&& forall|j: int| 0 <= j < i ==> fields@[j].name@ != name@
            },
            None => {
                &&& lookup(fields_view(fields@), name@) is None
                &&& forall|j: int| 0 <= j < fields@.len() ==> fields@[j].name@ != name@
            },
        },
{
    let mut i: usize = 0;
    let ghost all = fields_view(fields@);
    assert(all.skip(0) =~= all);
    while i < fields.len()
        invariant
            i <= fields@.len(),
            all == fields_view(fields@),
            forall|j: int| 0 <= j < i ==> fields@[j].name@ != name@,
            lookup(all, name@) == lookup(all.skip(i as int), name@),
        decreases fields.len() - i,
    {
        assert(all.skip(i as int)[0] == all[i as int]);
        if text::same(fields[i].name.as_str(), name) {
            return Some(i);
        }
        assert(all.skip(i as int).drop_first() =~= all.skip(i as int + 1));
        i += 1;
    }
    None
}

impl Json {
    /// The object without fields.
    pub fn object() -> (res: Json)
        ensures
            res@ == JsonView::empty(),
    {
        broadcast use lemma_object_view;

        let res = Json::Object(Vec::new());
        assert(res@->Object_0 =~= seq![]);
        res
    }

    /// The object with the field called `name` set to `value`; any other value
    /// as it is.
    pub fn with(self, name: &str, value: Json) -> (res: Json)
        ensures
            res@ == self@.with(name@, value@),
    {
        broadcast use lemma_object_view;

        match self {
            Json::Object(fields) => {
                let mut fields = fields;
                insert(&mut fields, name, value);
                Json::Object(fields)
            },
            other => other,
        }
    }

    /// A number: `null` where it is infinite or NaN.
    pub fn of_double(x: Double) -> (res: Json)
        ensures
            res@ == JsonView::of_double(x),
    {
        let infinity = Double { bits: crate::double::INFINITY_BITS };
        if x.abs().lt(infinity) {
            Json::Number(JsonNumber { double: x, integer: None })
        } else {
            Json::Null
        }
    }

    /// A whole number.
    pub fn of_integer(n: i64) -> (res: Json)
        ensures
            res@ == JsonView::of_integer(n as int),
    {
        Json::Number(JsonNumber { double: Double::of_integer(n), integer: Some(n as i128) })
    }

    /// A count.
    pub fn of_count(n: usize) -> (res: Json)
        ensures
            res@ == JsonView::of_integer(n as int),
    {
        Json::Number(JsonNumber { double: Double::of_count(n as u64), integer: Some(n as i128) })
    }

    /// A text, or `null` where there is none.
    pub fn of_optional_text(value: &Option<String>) -> (res: Json)
        ensures
            res@ == JsonView::of_optional_text(
                match value {
                    Some(s) => Some(s@),
                    None => None,
                },
            ),
    {
        match value {
            Some(s) => Json::of_text(s.as_str()),
            None => Json::Null,
        }
    }

    /// A list of texts.
    pub fn of_texts(values: &Vec<String>) -> (res: Json)
        ensures
            res@ == JsonView::of_texts(text::views(values@)),
    {
        broadcast use lemma_array_view;

        let mut out: Vec<Json> = Vec::new();
        let mut i: usize = 0;
        while i < values.len()
            invariant
                i <= values@.len(),
                out@.len() == i,
                forall|k: int| 0 <= k < i ==> (#[trigger] out@[k])@ == JsonView::Text(values@[k]@),
            decreases values.len() - i,
        {
            out.push(Json::of_text(values[i].as_str()));
            i += 1;
        }
        assert(items_view(out@) =~= JsonView::of_texts(text::views(values@))->Array_0);
        Json::Array(out)
    }

    /// A list of numbers.
    pub fn of_doubles(values: &Vec<Double>) -> (res: Json)
        ensures
            res@ == JsonView::of_doubles(values@),
    {
        broadcast use lemma_array_view;

        let mut out: Vec<Json> = Vec::new();
        let mut i: usize = 0;
        while i < values.len()
            invariant
                i <= values@.len(),
                out@.len() == i,
                forall|k: int|
                    0 <= k < i ==> (#[trigger] out@[k])@ == JsonView::of_double(values@[k]),
            decreases values.len() - i,
        {
            out.push(Json::of_double(values[i]));
            i += 1;
        }
        assert(items_view(out@) =~= JsonView::of_doubles(values@)->Array_0);
        Json::Array(out)
    }

    /// A text value.
    pub fn of_text(value: &str) -> (res: Json)
        ensures
            res@ == JsonView::Text(value@),
    {
        Json::Text(text::copy(value))
    }

    /// An equal value.
    pub fn duplicate(&self) -> (res: Json)
        ensures
            res@ == self@,
        decreases self,
    {
        broadcast use {lemma_array_view, lemma_object_view};

        match self {
            Json::Null => Json::Null,
            Json::Bool(b) => Json::Bool(*b),
            Json::Number(n) => Json::Number(*n),
            Json::Text(s) => Json::Text(text::copy(s.as_str())),
            Json::Sentence(m) => Json::Sentence(m.duplicate()),
            Json::Array(items) => {
                let mut out: Vec<Json> = Vec::new();
                let mut i: usize = 0;
                while i < items.len()
                    invariant
                        self == Json::Array(*items),
                        i <= items@.len(),
                        out@.len() == i,
                        forall|j: int| 0 <= j < i ==> (#[trigger] out@[j])@ == items@[j]@,
                    decreases items.len() - i,
                {
                    assert(decreases_to!(self => self->Array_0));
                    assert(decreases_to!(items => items@));
                    assert(decreases_to!(items@ => items@[i as int]));
                    out.push(items[i].duplicate());
                    i += 1;
                }
                assert(items_view(out@) =~= items_view(items@));
                Json::Array(out)
            },
            Json::Object(fields) => {
                let mut out: Vec<Field> = Vec::new();
                let mut i: usize = 0;
                while i < fields.len()
                    invariant
                        self == Json::Object(*fields),
                        i <= fields@.len(),
                        out@.len() == i,
                        forall|j: int|
                            0 <= j < i ==> (#[trigger] out@[j]).name@ == fields@[j].name@
                                && out@[j].value@ == fields@[j].value@,
                    decreases fields.len() - i,
                {
                    assert(decreases_to!(self => self->Object_0));
                    assert(decreases_to!(fields => fields@));
                    assert(decreases_to!(fields@ => fields@[i as int]));
                    assert(decreases_to!(fields@[i as int] => fields@[i as int].value));
                    out.push(
                        Field {
                            name: text::copy(fields[i].name.as_str()),
                            value: fields[i].value.duplicate(),
                        },
                    );
                    i += 1;
                }
                assert(fields_view(out@) =~= fields_view(fields@));
                Json::Object(out)
            },
        }
    }

    /// The value of the field called `name`, `None` where there is none or
    /// this is no object.
    pub fn get(&self, name: &str) -> (res: Option<&Json>)
        ensures
            match res {
                Some(v) => self@.field(name@) == Some(v@),
                None => self@.field(name@) is None,
            },
    {
        broadcast use lemma_object_view;

        match self {
            Json::Object(fields) => match find(fields, name) {
                Some(i) => Some(&fields[i].value),
                None => None,
            },
            _ => None,
        }
    }

    /// The double-precision value of a number.
    pub fn as_double(&self) -> (res: Option<Double>)
        ensures
            res == self@.double(),
    {
        match self {
            Json::Number(n) => Some(n.double),
            _ => None,
        }
    }

    /// The text of a text value.
    pub fn as_text(&self) -> (res: Option<&str>)
        ensures
            match res {
                Some(s) => self@.text() == Some(s@),
                None => self@.text() is None,
            },
    {
        match self {
            Json::Text(s) => Some(s.as_str()),
            _ => None,
        }
    }

    /// The value at the end of a chain of field names.
    pub fn at_path(&self, path: &[&str]) -> (res: Option<&Json>)
        ensures
            match res {
                Some(v) => self@.at(path_view(path@)) == Some(v@),
                None => self@.at(path_view(path@)) is None,
            },
    {
        let mut here = self;
        let mut i: usize = 0;
        let ghost names = path_view(path@);
        assert(names.skip(0) =~= names);
        while i < path.len()
            invariant
                i <= path@.len(),
                names == path_view(path@),
                self@.at(names) == here@.at(names.skip(i as int)),
            decreases path.len() - i,
        {
            assert(names.skip(i as int)[0] == path@[i as int]@);
            assert(names.skip(i as int).drop_first() =~= names.skip(i as int + 1));
            match here.get(path[i]) {
                Some(inner) => {
                    here = inner;
                },
                None => {
                    return None;
                },
            }
            i += 1;
        }
        Some(here)
    }

    /// The double-precision number at the end of a chain of field names.
    pub fn double_at(&self, path: &[&str]) -> (res: Option<Double>)
        ensures
            res == double_at(self@, path_view(path@)),
    {
        match self.at_path(path) {
            Some(v) => v.as_double(),
            None => None,
        }
    }

    /// A copy of the text at the end of a chain of field names.
    pub fn text_at(&self, path: &[&str]) -> (res: Option<String>)
        ensures
            match res {
                Some(s) => text_at(self@, path_view(path@)) == Some(s@),
                None => text_at(self@, path_view(path@)) is None,
            },
    {
        match self.at_path(path) {
            Some(v) => match v.as_text() {
                Some(s) => Some(text::copy(s)),
                None => None,
            },
            None => None,
        }
    }
}

/// The number of fields or items of a value.
pub open spec fn breadth(value: JsonView) -> nat {
    match value {
        JsonView::Object(fields) => fields.len(),
        JsonView::Array(items) => items.len(),
        _ => 0,
    }
}

/// The characters of each name of a chain.
pub open spec fn path_view(path: Seq<&str>) -> Seq<Seq<char>> {
    path.map_values(|s: &str| s@)
}

/// The number at the end of a chain of field names.
pub open spec fn double_at(value: JsonView, path: Seq<Seq<char>>) -> Option<Double> {
    match value.at(path) {
        Some(v) => v.double(),
        None => None,
    }
}

/// The text at the end of a chain of field names.
pub open spec fn text_at(value: JsonView, path: Seq<Seq<char>>) -> Option<Seq<char>> {
    match value.at(path) {
        Some(v) => v.text(),
        None => None,
    }
}

/// A field that was set reads back; the others read as before.
pub broadcast proof fn lemma_field_of_with(
    value: JsonView,
    name: Seq<char>,
    set: JsonView,
    other: Seq<char>,
)
    requires
        value is Object,
    ensures
        #[trigger] value.with(name, set).field(other) == (if other == name {
            Some(set)
        } else {
            value.field(other)
        }),
{
    lemma_lookup_inserted(value->Object_0, name, set, other);
}

/// An object with a field set is an object.
pub broadcast proof fn lemma_with_is_object(value: JsonView, name: Seq<char>, set: JsonView)
    requires
        value is Object,
    ensures
        (#[trigger] value.with(name, set)) is Object,
{
}

/// How the fields of an object read back.
pub broadcast group group_fields {
    lemma_field_of_with,
    lemma_with_is_object,
}

/// A chain of one name leads to the field of that name.
pub proof fn lemma_one_step(value: JsonView, name: Seq<char>)
    ensures
        double_at(value, seq![name]) == (match value.field(name) {
            Some(v) => v.double(),
            None => None,
        }),
{
    reveal_with_fuel(JsonView::at, 2);
    assert(seq![name].drop_first() =~= seq![]);
}

/// A chain of two names leads to the field of the second name in that of the
/// first.
pub proof fn lemma_two_steps(value: JsonView, outer: Seq<char>, name: Seq<char>)
    requires
        value.field(outer) is Some,
    ensures
        double_at(value, seq![outer, name]) == (match value.field(outer)->Some_0.field(name) {
            Some(v) => v.double(),
            None => None,
        }),
{
    reveal_with_fuel(JsonView::at, 3);
    assert(seq![outer, name].drop_first() =~= seq![name]);
    assert(seq![name].drop_first() =~= seq![]);
}

/// Fields that are set on top of others win, each by the last of its name; the
/// others stay.
pub proof fn lemma_lookup_merged(fields: Fields, more: Fields, name: Seq<char>)
    ensures
        (forall|i: int| 0 <= i < more.len() ==> (#[trigger] more[i]).0 != name) ==> lookup(
            merged(fields, more),
            name,
        ) == lookup(fields, name),
        forall|i: int|
            0 <= i < more.len() && (#[trigger] more[i]).0 == name && (forall|j: int|
                i < j < more.len() ==> (#[trigger] more[j]).0 != name) ==> lookup(
                merged(fields, more),
                name,
            ) == Some(more[i].1),
    decreases more.len(),
{
    if more.len() > 0 {
        let front = more.drop_last();
        lemma_lookup_merged(fields, front, name);
        lemma_lookup_inserted(merged(fields, front), more.last().0, more.last().1, name);
        assert(forall|i: int| 0 <= i < front.len() ==> #[trigger] front[i] == more[i]);
        if forall|i: int| 0 <= i < more.len() ==> (#[trigger] more[i]).0 != name {
            assert(more[more.len() - 1].0 != name);
        }
        assert forall|i: int|
            0 <= i < more.len() && (#[trigger] more[i]).0 == name && (forall|j: int|
                i < j < more.len() ==> (#[trigger] more[j]).0 != name) implies lookup(
            merged(fields, more),
            name,
        ) == Some(more[i].1) by {
            if i < more.len() - 1 {
                assert(more[more.len() - 1].0 != name);
                assert(front[i] == more[i]);
            }
        }
    }
}

fn insert_from(fields: &mut Vec<Field>, from: usize, name: String, value: Json)
    requires
        from <= old(fields)@.len(),
    ensures
        fields_view(final(fields)@) == fields_view(old(fields)@).take(from as int) + inserted(
            fields_view(old(fields)@).skip(from as int),
            name@,
            value@,
        ),
    decreases old(fields)@.len() - from,
{
    let ghost all = fields_view(fields@);
    let ghost rest = all.skip(from as int);
    if from == fields.len() {
        fields.push(Field { name, value });
        assert(fields_view(fields@) =~= all.take(from as int) + seq![(name@, value@)]);
        return;
    }
    assert(rest[0] == all[from as int]);
    if text::same(fields[from].name.as_str(), name.as_str()) {
        fields.set(from, Field { name, value });
        assert(fields_view(fields@) =~= all.take(from as int) + (seq![(name@, value@)]
            + rest.drop_first()));
    } else if text::before(name.as_str(), fields[from].name.as_str()) {
        fields.insert(from, Field { name, value });
        assert(fields_view(fields@) =~= all.take(from as int) + (seq![(name@, value@)] + rest));
    } else {
        assert(rest.drop_first() =~= all.skip(from as int + 1));
        insert_from(fields, from + 1, name, value);
        assert(all.take(from as int + 1) =~= all.take(from as int) + seq![rest[0]]);
        assert(fields_view(fields@) =~= all.take(from as int) + (seq![rest[0]] + inserted(
            rest.drop_first(),
            name@,
            value@,
        )));
    }
}

/// Sets the field called `name` to `value`.
pub fn insert(fields: &mut Vec<Field>, name: &str, value: Json)
    ensures
        fields_view(final(fields)@) == inserted(fields_view(old(fields)@), name@, value@),
{
    let ghost all = fields_view(fields@);
    assert(all.skip(0) =~= all);
    insert_from(fields, 0, text::copy(name), value);
    assert(fields_view(fields@) =~= inserted(all, name@, value@));
}

pub proof fn lemma_removed_absent(fields: Fields, name: Seq<char>)
    requires
        forall|i: int| 0 <= i < fields.len() ==> (#[trigger] fields[i]).0 != name,
    ensures
        removed(fields, name) == fields,
    decreases fields.len(),
{
    if fields.len() > 0 {
        assert forall|i: int| 0 <= i < fields.drop_first().len() implies (
        #[trigger] fields.drop_first()[i]).0 != name by {
            assert(fields.drop_first()[i] == fields[i + 1]);
        }
        lemma_removed_absent(fields.drop_first(), name);
        assert(seq![fields[0]] + fields.drop_first() =~= fields);
    } else {
        assert(fields =~= seq![]);
    }
}

pub proof fn lemma_removed_step(front: Fields, middle: (Seq<char>, JsonView), back: Fields, name: Seq<char>)
    ensures
        removed(front + seq![middle] + back, name) == removed(front, name) + (if middle.0 == name {
            seq![]
        } else {
            seq![middle]
        }) + removed(back, name),
    decreases front.len(),
{
    let whole = front + seq![middle] + back;
    if front.len() == 0 {
        assert(whole.drop_first() =~= back);
        assert(whole[0] == middle);
        assert(removed(whole, name) =~= removed(front, name) + (if middle.0 == name {
            seq![]
        } else {
            seq![middle]
        }) + removed(back, name));
    } else {
        lemma_removed_step(front.drop_first(), middle, back, name);
        assert(whole.drop_first() =~= front.drop_first() + seq![middle] + back);
        assert(removed(whole, name) =~= removed(front, name) + (if middle.0 == name {
            seq![]
        } else {
            seq![middle]
        }) + removed(back, name));
    }
}

/// Removes the fields called `name` and returns the value of the first.
pub fn remove(fields: &mut Vec<Field>, name: &str) -> (res: Option<Json>)
    ensures
        fields_view(final(fields)@) == removed(fields_view(old(fields)@), name@),
        match res {
            Some(v) => lookup(fields_view(old(fields)@), name@) == Some(v@),
            None => lookup(fields_view(old(fields)@), name@) is None,
        },
    decreases old(fields)@.len(),
{
    let ghost all = fields_view(fields@);
    match find(fields, name) {
        None => {
            proof {
                lemma_removed_absent(all, name@);
            }
            None
        },
        Some(i) => {
            let gone = fields.remove(i);
            proof {
                assert(all =~= all.take(i as int) + seq![all[i as int]] + all.skip(i as int + 1));
                lemma_removed_step(all.take(i as int), all[i as int], all.skip(i as int + 1), name@);
                assert(fields_view(fields@) =~= all.take(i as int) + all.skip(i as int + 1));
                lemma_removed_absent(all.take(i as int), name@);
            }
            let ghost shorter = fields_view(fields@);
            let _ = remove(fields, name);
            proof {
                lemma_removed_split(all.take(i as int), all.skip(i as int + 1), name@);
                assert(removed(shorter, name@) =~= removed(all, name@));
            }
            Some(gone.value)
        },
    }
}

proof fn lemma_removed_split(front: Fields, back: Fields, name: Seq<char>)
    ensures
        removed(front + back, name) == removed(front, name) + removed(back, name),
    decreases front.len(),
{
    if front.len() == 0 {
        assert(front + back =~= back);
        assert(removed(front, name) + removed(back, name) =~= removed(back, name));
    } else {
        lemma_removed_split(front.drop_first(), back, name);
        assert((front + back).drop_first() =~= front.drop_first() + back);
        assert(removed(front + back, name) =~= removed(front, name) + removed(back, name));
    }
}

/// A field that was set reads back as it was set, and the others read as
/// before.
pub proof fn lemma_lookup_inserted(fields: Fields, name: Seq<char>, value: JsonView, other: Seq<char>)
    ensures
        lookup(inserted(fields, name, value), name) == Some(value),
        other != name ==> lookup(inserted(fields, name, value), other) == lookup(fields, other),
    decreases fields.len(),
{
    let result = inserted(fields, name, value);
    if fields.len() == 0 {
        assert(result[0] == (name, value));
        assert(result.drop_first() =~= seq![]);
        assert(lookup(result.drop_first(), other) is None);
    } else if fields[0].0 == name {
        assert(result[0] == (name, value));
        assert(result.drop_first() =~= fields.drop_first());
    } else if text::precedes(name, fields[0].0) {
        assert(result[0] == (name, value));
        assert(result.drop_first() =~= fields);
    } else {
        lemma_lookup_inserted(fields.drop_first(), name, value, other);
        assert(result[0] == fields[0]);
        assert(result.drop_first() =~= inserted(fields.drop_first(), name, value));
    }
}

/// A field that was removed is absent, and the others read as before.
pub proof fn lemma_lookup_removed(fields: Fields, name: Seq<char>, other: Seq<char>)
    ensures
        lookup(removed(fields, name), name) is None,
        other != name ==> lookup(removed(fields, name), other) == lookup(fields, other),
    decreases fields.len(),
{
    if fields.len() > 0 {
        lemma_lookup_removed(fields.drop_first(), name, other);
        if fields[0].0 != name {
            assert(removed(fields, name).drop_first() =~= removed(fields.drop_first(), name));
        }
    }
}

} // verus!
