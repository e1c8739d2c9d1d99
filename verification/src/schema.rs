//! The functions that the model may call, and how the schema of their
//! arguments is brought into the form that the model takes.
//!
//! The model knows no references between schemas, no combination of several,
//! no open maps and no lists of types. References are replaced by what they
//! refer to; combinations are merged; open maps and lists of types are cut
//! down.

use vstd::prelude::*;

use crate::gemini::FunctionDeclaration;
use crate::json::{self, Field, Fields, Json, JsonView};
use crate::text;

verus! {

pub const FACTOR_SHOCK_FUNCTION: &'static str = "run_factor_shock";

pub const RISK_DECOMPOSITION_FUNCTION: &'static str = "run_risk_decomposition";

pub const CVAR_REBALANCE_FUNCTION: &'static str = "run_cvar_rebalance";

pub const PORTFOLIO_PERFORMANCE_FUNCTION: &'static str = "run_portfolio_performance";

pub const RISK_DRIFT_FUNCTION: &'static str = "run_risk_drift";

// ---------------------------------------------------------------------------
// Fields that the caller supplies
// ---------------------------------------------------------------------------

/// Where a value stands in a schema, as far as it matters to what is left out.
#[derive(Clone, Copy, Debug, PartialEq, Eq, Structural)]
pub enum Standing {
    /// Under `properties`: its fields are the properties.
    Properties,
    /// Under `required`: its items are the names of properties.
    Required,
    Elsewhere,
}

/// Where the value of a field with the given name stands.
pub open spec fn standing_under(name: Seq<char>) -> Standing {
    if name == "properties"@ {
        Standing::Properties
    } else if name == "required"@ {
        Standing::Required
    } else {
        Standing::Elsewhere
    }
}

/// Whether a field of a value is left out.
pub open spec fn omits_field(standing: Standing, names: Seq<Seq<char>>, name: Seq<char>) -> bool {
    standing == Standing::Properties && names.contains(name)
}

/// Whether an item of a value is left out.
pub open spec fn omits_item(standing: Standing, names: Seq<Seq<char>>, item: JsonView) -> bool {
    standing == Standing::Required && item is Text && names.contains(item->Text_0)
}

/// A schema without the named properties, wherever it lists or requires them.
pub open spec fn stripped(value: JsonView, names: Seq<Seq<char>>, standing: Standing) -> JsonView
    decreases value, json::breadth(value) + 1,
{
    match value {
        JsonView::Object(fields) => JsonView::Object(
            stripped_fields(value, names, standing, fields.len()),
        ),
        JsonView::Array(items) => JsonView::Array(
            stripped_items(value, names, standing, items.len()),
        ),
        other => other,
    }
}

/// The first `n` fields of an object, stripped.
pub open spec fn stripped_fields(
    value: JsonView,
    names: Seq<Seq<char>>,
    standing: Standing,
    n: nat,
) -> Fields
    decreases value, n,
{
    match value {
        JsonView::Object(fields) => if n == 0 || n > fields.len() {
            seq![]
        } else {
            let before = stripped_fields(value, names, standing, (n - 1) as nat);
            let field = fields[n - 1];
            if omits_field(standing, names, field.0) {
                before
            } else {
                before.push((field.0, stripped(field.1, names, standing_under(field.0))))
            }
        },
        _ => seq![],
    }
}

/// The first `n` items of a list, stripped.
pub open spec fn stripped_items(
    value: JsonView,
    names: Seq<Seq<char>>,
    standing: Standing,
    n: nat,
) -> Seq<JsonView>
    decreases value, n,
{
    match value {
        JsonView::Array(items) => if n == 0 || n > items.len() {
            seq![]
        } else {
            let before = stripped_items(value, names, standing, (n - 1) as nat);
            if omits_item(standing, names, items[n - 1]) {
                before
            } else {
                before.push(stripped(items[n - 1], names, Standing::Elsewhere))
            }
        },
        _ => seq![],
    }
}

fn place_under(name: &str) -> (res: Standing)
    ensures
        res == standing_under(name@),
{
    if text::same(name, "properties") {
        Standing::Properties
    } else if text::same(name, "required") {
        Standing::Required
    } else {
        Standing::Elsewhere
    }
}

fn among(names: &Vec<String>, name: &str) -> (res: bool)
    ensures
        res == text::views(names@).contains(name@),
{
    match text::position(names, name) {
        Some(i) => {
            assert(text::views(names@)[i as int] == name@);
            true
        },
        None => {
            proof {
                if text::views(names@).contains(name@) {
                    let k = choose|k: int|
                        0 <= k < text::views(names@).len() && text::views(names@)[k] == name@;
                    assert(names@[k]@ == name@);
                }
            }
            false
        },
    }
}

/// Removes the named properties from a schema, wherever it lists or requires
/// them.
pub fn strip_fields(value: &Json, names: &Vec<String>, standing: Standing) -> (res: Json)
    ensures
        res@ == stripped(value@, text::views(names@), standing),
    decreases value,
{
    broadcast use {json::lemma_array_view, json::lemma_object_view};

    let ghost words = text::views(names@);
    match value {
        Json::Object(fields) => {
            let mut out: Vec<Field> = Vec::new();
            let mut i: usize = 0;
            assert(json::fields_view(out@) =~= seq![]);
            while i < fields.len()
                invariant
                    value == Json::Object(*fields),
                    value@ == JsonView::Object(json::fields_view(fields@)),
                    i <= fields@.len(),
                    words == text::views(names@),
                    json::fields_view(out@) == stripped_fields(value@, words, standing, i as nat),
                decreases fields.len() - i,
            {
                let field = &fields[i];
                let ghost before = out@;
                assert(json::fields_view(fields@)[i as int] == (field.name@, field.value@));
                let dropped = match standing {
                    Standing::Properties => among(names, field.name.as_str()),
                    _ => false,
                };
                if !dropped {
                    assert(decreases_to!(value => value->Object_0));
                    assert(decreases_to!(fields => fields@));
                    assert(decreases_to!(fields@ => fields@[i as int]));
                    assert(decreases_to!(fields@[i as int] => fields@[i as int].value));
                    let inner = strip_fields(
                        &field.value,
                        names,
                        place_under(field.name.as_str()),
                    );
                    out.push(Field { name: text::copy(field.name.as_str()), value: inner });
                    assert(json::fields_view(out@) =~= json::fields_view(before).push(
                        (field.name@, inner@),
                    ));
                }
                i += 1;
            }
            Json::Object(out)
        },
        Json::Array(items) => {
            let mut out: Vec<Json> = Vec::new();
            let mut i: usize = 0;
            assert(json::items_view(out@) =~= seq![]);
            while i < items.len()
                invariant
                    value == Json::Array(*items),
                    value@ == JsonView::Array(json::items_view(items@)),
                    i <= items@.len(),
                    words == text::views(names@),
                    json::items_view(out@) == stripped_items(value@, words, standing, i as nat),
                decreases items.len() - i,
            {
                let ghost before = out@;
                assert(json::items_view(items@)[i as int] == items@[i as int]@);
                let dropped = match standing {
                    Standing::Required => match items[i].as_text() {
                        Some(s) => among(names, s),
                        None => false,
                    },
                    _ => false,
                };
                if !dropped {
                    assert(decreases_to!(value => value->Array_0));
                    assert(decreases_to!(items => items@));
                    assert(decreases_to!(items@ => items@[i as int]));
                    let inner = strip_fields(&items[i], names, Standing::Elsewhere);
                    out.push(inner);
                    assert(json::items_view(out@) =~= json::items_view(before).push(inner@));
                }
                i += 1;
            }
            Json::Array(out)
        },
        other => other.duplicate(),
    }
}

// ---------------------------------------------------------------------------
// References, combinations, open maps and lists of types
// ---------------------------------------------------------------------------

/// The name that a reference refers to.
pub open spec fn referred_name(reference: Seq<char>) -> Option<Seq<char>> {
    if "#/definitions/"@.is_prefix_of(reference) {
        Some(reference.skip("#/definitions/"@.len() as int))
    } else if "#/$defs/"@.is_prefix_of(reference) {
        Some(reference.skip("#/$defs/"@.len() as int))
    } else {
        None
    }
}

/// A reference names a definition behind either of the two heads, and any other
/// text names none.
pub proof fn lemma_referred_name(name: Seq<char>, other: Seq<char>)
    ensures
        referred_name("#/definitions/"@ + name) == Some(name),
        referred_name("#/$defs/"@ + name) == Some(name),
        other.len() < 3 || other[0] != '#' || other[1] != '/' ==> referred_name(other) is None,
{
    reveal_strlit("#/definitions/");
    reveal_strlit("#/$defs/");
    assert("#/definitions/"@.len() == 14 && "#/$defs/"@.len() == 8);
    assert("#/definitions/"@[0] == '#' && "#/definitions/"@[1] == '/');
    assert("#/definitions/"@[2] == 'd');
    assert("#/$defs/"@[0] == '#' && "#/$defs/"@[1] == '/' && "#/$defs/"@[2] == '$');
    let (a, b) = ("#/definitions/"@ + name, "#/$defs/"@ + name);
    assert(a.subrange(0, 14) =~= "#/definitions/"@);
    assert(a.skip(14) =~= name);
    assert(b.subrange(0, 8) =~= "#/$defs/"@);
    assert(b.skip(8) =~= name);
    if "#/definitions/"@.is_prefix_of(b) {
        assert(b.subrange(0, 14)[2] == b[2]);
        assert(b[2] == '$');
    }
    if "#/definitions/"@.is_prefix_of(other) {
        assert(other.subrange(0, 14)[0] == other[0] && other.subrange(0, 14)[1] == other[1]);
    }
    if "#/$defs/"@.is_prefix_of(other) {
        assert(other.subrange(0, 8)[0] == other[0] && other.subrange(0, 8)[1] == other[1]);
    }
}

/// What an object refers to, where it is a reference to a known definition.
pub open spec fn target(fields: Fields, defs: Fields) -> Option<JsonView> {
    match json::lookup(fields, "$ref"@) {
        Some(JsonView::Text(reference)) => match referred_name(reference) {
            Some(name) => json::lookup(defs, name),
            None => None,
        },
        _ => None,
    }
}

/// The place of the first of `types`, from `from` on, that is not the name of
/// the null type.
pub open spec fn first_type(types: Seq<JsonView>, from: nat) -> Option<nat>
    decreases types.len() - from,
{
    if from >= types.len() {
        None
    } else if types[from as int] == JsonView::Text("null"@) {
        first_type(types, from + 1)
    } else {
        Some(from)
    }
}

/// Whether a field is a list of types of which none is left.
pub open spec fn has_no_type(field: (Seq<char>, JsonView)) -> bool {
    field.0 == "type"@ && field.1 is Array && first_type(field.1->Array_0, 0) is None
}

/// Whether a field of an object is given up: combinations, open maps, and
/// lists of types of which none is left.
pub open spec fn given_up(field: (Seq<char>, JsonView)) -> bool {
    field.0 == "allOf"@ || field.0 == "additionalProperties"@ || has_no_type(field)
}

/// Of the first `n` fields, the rewritten forms of those that are not given
/// up.
pub open spec fn kept(fields: Fields, rewritten: Fields, n: int) -> Fields
    decreases n,
{
    if n <= 0 {
        seq![]
    } else if given_up(fields[n - 1]) {
        kept(fields, rewritten, n - 1)
    } else {
        kept(fields, rewritten, n - 1).push(rewritten[n - 1])
    }
}

/// `base` with those fields of `more` that it does not have.
pub open spec fn completed(base: Fields, more: Fields) -> Fields
    decreases more.len(),
{
    if more.len() == 0 {
        base
    } else {
        let before = completed(base, more.drop_last());
        if json::lookup(before, more.last().0) is Some {
            before
        } else {
            json::inserted(before, more.last().0, more.last().1)
        }
    }
}

/// The fields of all objects among the first `n` items, the first of several
/// with the same name.
pub open spec fn collected(items: Seq<JsonView>, n: int) -> Fields
    decreases n,
{
    if n <= 0 {
        seq![]
    } else {
        match items[n - 1] {
            JsonView::Object(inner) => completed(collected(items, n - 1), inner),
            _ => collected(items, n - 1),
        }
    }
}

/// Those of the first `n` of `fields` that `own` does not have.
pub open spec fn missing_from(own: Fields, fields: Fields, n: int) -> Fields
    decreases n,
{
    if n <= 0 {
        seq![]
    } else if json::lookup(own, fields[n - 1].0) is Some {
        missing_from(own, fields, n - 1)
    } else {
        missing_from(own, fields, n - 1).push(fields[n - 1])
    }
}

/// A schema without open maps and lists of types. It is applied to what comes
/// out of a combination, which holds no reference or combination any more.
pub open spec fn tidied(value: JsonView) -> JsonView
    decreases value, 1nat,
{
    match value {
        JsonView::Object(fields) => JsonView::Object(
            kept(fields, tidied_fields(value), fields.len() as int),
        ),
        JsonView::Array(items) => JsonView::Array(
            Seq::new(
                items.len(),
                |i: int|
                    if 0 <= i < items.len() {
                        tidied(items[i])
                    } else {
                        JsonView::Null
                    },
            ),
        ),
        other => other,
    }
}

/// The fields of an object, each tidied; a list of types as its first type.
pub open spec fn tidied_fields(value: JsonView) -> Fields
    decreases value, 0nat,
{
    match value {
        JsonView::Object(fields) => Seq::new(
            fields.len(),
            |i: int|
                if 0 <= i < fields.len() {
                    if fields[i].0 == "type"@ && fields[i].1 is Array {
                        let types = fields[i].1->Array_0;
                        match first_type(types, 0) {
                            Some(j) => if j < types.len() {
                                (fields[i].0, tidied(types[j as int]))
                            } else {
                                (fields[i].0, JsonView::Null)
                            },
                            None => (fields[i].0, JsonView::Null),
                        }
                    } else {
                        (fields[i].0, tidied(fields[i].1))
                    }
                } else {
                    (seq![], JsonView::Null)
                },
        ),
        _ => seq![],
    }
}

/// A schema in the form that the model takes. References are followed at most
/// `depth` deep.
pub open spec fn cleaned(value: JsonView, defs: Fields, depth: nat) -> JsonView
    decreases depth, value, 1nat,
{
    match value {
        JsonView::Object(fields) => match target(fields, defs) {
            Some(referred) => if depth == 0 {
                value
            } else {
                cleaned(referred, defs, (depth - 1) as nat)
            },
            None => combined(fields, cleaned_fields(value, defs, depth)),
        },
        JsonView::Array(items) => JsonView::Array(
            Seq::new(
                items.len(),
                |i: int|
                    if 0 <= i < items.len() {
                        cleaned(items[i], defs, depth)
                    } else {
                        JsonView::Null
                    },
            ),
        ),
        other => other,
    }
}

/// The fields of an object, each cleaned; a list of types as its first type.
pub open spec fn cleaned_fields(value: JsonView, defs: Fields, depth: nat) -> Fields
    decreases depth, value, 0nat,
{
    match value {
        JsonView::Object(fields) => Seq::new(
            fields.len(),
            |i: int|
                if 0 <= i < fields.len() {
                    if fields[i].0 == "type"@ && fields[i].1 is Array {
                        let types = fields[i].1->Array_0;
                        match first_type(types, 0) {
                            Some(j) => if j < types.len() {
                                (fields[i].0, cleaned(types[j as int], defs, depth))
                            } else {
                                (fields[i].0, JsonView::Null)
                            },
                            None => (fields[i].0, JsonView::Null),
                        }
                    } else {
                        (fields[i].0, cleaned(fields[i].1, defs, depth))
                    }
                } else {
                    (seq![], JsonView::Null)
                },
        ),
        _ => seq![],
    }
}

/// The fields that a combination adds to an object: those of its parts that
/// the object does not have itself.
pub open spec fn added_fields(fields: Fields, rewritten: Fields) -> Fields {
    match (json::lookup(fields, "allOf"@), json::lookup(rewritten, "allOf"@)) {
        (Some(JsonView::Array(_)), Some(JsonView::Array(parts))) => {
            let all = collected(parts, parts.len() as int);
            missing_from(json::removed(fields, "allOf"@), all, all.len() as int)
        },
        _ => seq![],
    }
}

/// An object whose fields were rewritten, merged with what its combination
/// adds.
pub open spec fn combined(fields: Fields, rewritten: Fields) -> JsonView {
    JsonView::Object(
        json::merged(
            tidied(JsonView::Object(added_fields(fields, rewritten)))->Object_0,
            kept(fields, rewritten, fields.len() as int),
        ),
    )
}

/// Whether references in the parts of a schema that are looked at lie at most
/// `depth` deep inside each other.
pub open spec fn nests_within(value: JsonView, defs: Fields, depth: nat) -> bool
    decreases depth, value,
{
    match value {
        JsonView::Object(fields) => match target(fields, defs) {
            Some(referred) => depth > 0 && nests_within(referred, defs, (depth - 1) as nat),
            None => forall|i: int|
                0 <= i < fields.len() ==> {
                    let name = (#[trigger] fields[i]).0;
                    if name == "additionalProperties"@ {
                        true
                    } else if name == "allOf"@ {
                        fields[i].1 is Array ==> nests_within(fields[i].1, defs, depth)
                    } else if name == "type"@ && fields[i].1 is Array {
                        let types = fields[i].1->Array_0;
                        forall|j: int|
                            0 <= j < types.len() && first_type(types, 0) == Some(j as nat)
                                ==> nests_within(#[trigger] types[j], defs, depth)
                    } else {
                        nests_within(fields[i].1, defs, depth)
                    }
                },
        },
        JsonView::Array(items) => forall|i: int|
            0 <= i < items.len() ==> nests_within(#[trigger] items[i], defs, depth),
        _ => true,
    }
}

proof fn lemma_lookup_at(fields: Fields, name: Seq<char>, at: int)
    requires
        0 <= at < fields.len(),
        fields[at].0 == name,
        forall|k: int| 0 <= k < at ==> (#[trigger] fields[k]).0 != name,
    ensures
        json::lookup(fields, name) == Some(fields[at].1),
    decreases at,
{
    if at > 0 {
        assert forall|k: int| 0 <= k < at - 1 implies (#[trigger] fields.drop_first()[k]).0
            != name by {
            assert(fields.drop_first()[k] == fields[k + 1]);
        }
        assert(fields[0].0 != name);
        lemma_lookup_at(fields.drop_first(), name, at - 1);
    }
}

proof fn lemma_item_nests(value: JsonView, defs: Fields, depth: nat, i: int)
    requires
        nests_within(value, defs, depth),
        value is Array,
        0 <= i < value->Array_0.len(),
    ensures
        nests_within(value->Array_0[i], defs, depth),
{
}

proof fn lemma_field_nests(value: JsonView, defs: Fields, depth: nat, i: int)
    requires
        nests_within(value, defs, depth),
        value is Object,
        target(value->Object_0, defs) is None,
        0 <= i < value->Object_0.len(),
    ensures
        ({
            let field = value->Object_0[i];
            if field.0 == "additionalProperties"@ {
                true
            } else if field.0 == "allOf"@ {
                field.1 is Array ==> nests_within(field.1, defs, depth)
            } else if field.0 == "type"@ && field.1 is Array {
                match first_type(field.1->Array_0, 0) {
                    Some(j) => j < field.1->Array_0.len() ==> nests_within(
                        field.1->Array_0[j as int],
                        defs,
                        depth,
                    ),
                    None => true,
                }
            } else {
                nests_within(field.1, defs, depth)
            }
        }),
{
}

/// The place of the first of `types` that is not the null type.
fn find_type(types: &Vec<Json>) -> (res: Option<usize>)
    ensures
        match res {
            Some(j) => j < types@.len() && first_type(json::items_view(types@), 0) == Some(
                j as nat,
            ),
            None => first_type(json::items_view(types@), 0) is None,
        },
{
    let ghost views = json::items_view(types@);
    let mut j: usize = 0;
    while j < types.len()
        invariant
            j <= types@.len(),
            views == json::items_view(types@),
            first_type(views, 0) == first_type(views, j as nat),
        decreases types.len() - j,
    {
        assert(views[j as int] == types@[j as int]@);
        let null = match types[j].as_text() {
            Some(s) => text::same(s, "null"),
            None => false,
        };
        if !null {
            return Some(j);
        }
        j += 1;
    }
    None
}

fn referred(reference: &str) -> (res: Option<String>)
    ensures
        match res {
            Some(s) => referred_name(reference@) == Some(s@),
            None => referred_name(reference@) is None,
        },
{
    let chars = text::chars_of(reference);
    if text::starts_with(reference, "#/definitions/") {
        let prefix = text::chars_of("#/definitions/");
        Some(text::part(reference, prefix.len(), chars.len()))
    } else if text::starts_with(reference, "#/$defs/") {
        let prefix = text::chars_of("#/$defs/");
        Some(text::part(reference, prefix.len(), chars.len()))
    } else {
        None
    }
}

/// The place of the definition that an object refers to.
fn find_target(fields: &Vec<Field>, defs: &Vec<Field>) -> (res: Option<usize>)
    ensures
        match res {
            Some(d) => d < defs@.len() && target(
                json::fields_view(fields@),
                json::fields_view(defs@),
            ) == Some(defs@[d as int].value@),
            None => target(json::fields_view(fields@), json::fields_view(defs@)) is None,
        },
{
    match json::find(fields, "$ref") {
        Some(i) => match fields[i].value.as_text() {
            Some(reference) => match referred(reference) {
                Some(name) => json::find(defs, name.as_str()),
                None => None,
            },
            None => None,
        },
        None => None,
    }
}

/// Whether a field is given up.
fn gives_up(field: &Field) -> (res: bool)
    ensures
        res == given_up((field.name@, field.value@)),
{
    broadcast use json::lemma_array_view;

    if text::same(field.name.as_str(), "allOf") || text::same(
        field.name.as_str(),
        "additionalProperties",
    ) {
        return true;
    }
    if text::same(field.name.as_str(), "type") {
        if let Json::Array(types) = &field.value {
            return find_type(types).is_none();
        }
    }
    false
}

/// Removes open maps and lists of types.
fn tidy(value: &Json) -> (res: Json)
    ensures
        res@ == tidied(value@),
    decreases value,
{
    broadcast use {json::lemma_array_view, json::lemma_object_view};

    match value {
        Json::Object(fields) => {
            let ghost all = json::fields_view(fields@);
            let ghost rewritten = tidied_fields(value@);
            let mut out: Vec<Field> = Vec::new();
            let mut i: usize = 0;
            assert(json::fields_view(out@) =~= seq![]);
            while i < fields.len()
                invariant
                    value == Json::Object(*fields),
                    all == json::fields_view(fields@),
                    i <= fields@.len(),
                    value@ == JsonView::Object(all),
                    rewritten == tidied_fields(value@),
                    json::fields_view(out@) == kept(all, rewritten, i as int),
                decreases fields.len() - i,
            {
                let field = &fields[i];
                let ghost before = out@;
                assert(all[i as int] == (field.name@, field.value@));
                if !gives_up(field) {
                    assert(decreases_to!(value => value->Object_0));
                    assert(decreases_to!(fields => fields@));
                    assert(decreases_to!(fields@ => fields@[i as int]));
                    assert(decreases_to!(fields@[i as int] => fields@[i as int].value));
                    let inner = match (&field.value, text::same(field.name.as_str(), "type")) {
                        (Json::Array(types), true) => {
                            proof {
                                json::lemma_array_view(*types);
                            }
                            match find_type(types) {
                                Some(j) => {
                                    assert(decreases_to!(field.value => field.value->Array_0));
                                    assert(decreases_to!(types => types@));
                                    assert(decreases_to!(types@ => types@[j as int]));
                                    assert(json::items_view(types@)[j as int] == types@[j as int]@);
                                    tidy(&types[j])
                                },
                                None => Json::Null,
                            }
                        },
                        _ => tidy(&field.value),
                    };
                    out.push(Field { name: text::copy(field.name.as_str()), value: inner });
                    assert(json::fields_view(out@) =~= json::fields_view(before).push(
                        rewritten[i as int],
                    ));
                }
                i += 1;
            }
            Json::Object(out)
        },
        Json::Array(items) => {
            let mut out: Vec<Json> = Vec::new();
            let mut i: usize = 0;
            while i < items.len()
                invariant
                    value == Json::Array(*items),
                    i <= items@.len(),
                    out@.len() == i,
                    forall|k: int| 0 <= k < i ==> (#[trigger] out@[k])@ == tidied(items@[k]@),
                decreases items.len() - i,
            {
                assert(decreases_to!(value => value->Array_0));
                assert(decreases_to!(items => items@));
                assert(decreases_to!(items@ => items@[i as int]));
                out.push(tidy(&items[i]));
                i += 1;
            }
            assert(json::items_view(out@) =~= tidied(value@)->Array_0);
            Json::Array(out)
        },
        other => other.duplicate(),
    }
}

/// Adds those of `more` that are not there yet.
fn complete(base: &mut Vec<Field>, more: &Vec<Field>)
    ensures
        json::fields_view(final(base)@) == completed(
            json::fields_view(old(base)@),
            json::fields_view(more@),
        ),
{
    let ghost start = json::fields_view(base@);
    let ghost all = json::fields_view(more@);
    let mut i: usize = 0;
    assert(all.take(0) =~= seq![]);
    while i < more.len()
        invariant
            i <= more@.len(),
            all == json::fields_view(more@),
            json::fields_view(base@) == completed(start, all.take(i as int)),
        decreases more.len() - i,
    {
        assert(all.take(i as int + 1).drop_last() =~= all.take(i as int));
        assert(all.take(i as int + 1).last() == (more@[i as int].name@, more@[i as int].value@));
        if json::find(base, more[i].name.as_str()).is_none() {
            json::insert(base, more[i].name.as_str(), more[i].value.duplicate());
        }
        i += 1;
    }
    assert(all.take(all.len() as int) =~= all);
}

/// The fields of all objects among `items`.
fn collect(items: &Vec<Json>) -> (res: Vec<Field>)
    ensures
        json::fields_view(res@) == collected(json::items_view(items@), items@.len() as int),
{
    broadcast use json::lemma_object_view;

    let ghost views = json::items_view(items@);
    let mut out: Vec<Field> = Vec::new();
    let mut i: usize = 0;
    assert(json::fields_view(out@) =~= seq![]);
    while i < items.len()
        invariant
            i <= items@.len(),
            views == json::items_view(items@),
            json::fields_view(out@) == collected(views, i as int),
        decreases items.len() - i,
    {
        assert(views[i as int] == items@[i as int]@);
        if let Json::Object(inner) = &items[i] {
            proof {
                json::lemma_object_view(*inner);
            }
            complete(&mut out, inner);
        }
        i += 1;
    }
    out
}

/// Those of `fields` that `own` does not have, leaving its combination aside.
fn missing_fields(own: &Vec<Field>, fields: &Vec<Field>) -> (res: Vec<Field>)
    ensures
        json::fields_view(res@) == missing_from(
            json::removed(json::fields_view(own@), "allOf"@),
            json::fields_view(fields@),
            fields@.len() as int,
        ),
{
    let ghost all = json::fields_view(fields@);
    let ghost mine = json::removed(json::fields_view(own@), "allOf"@);
    let mut out: Vec<Field> = Vec::new();
    let mut i: usize = 0;
    assert(json::fields_view(out@) =~= seq![]);
    while i < fields.len()
        invariant
            i <= fields@.len(),
            all == json::fields_view(fields@),
            mine == json::removed(json::fields_view(own@), "allOf"@),
            json::fields_view(out@) == missing_from(mine, all, i as int),
        decreases fields.len() - i,
    {
        let ghost before = out@;
        let name = fields[i].name.as_str();
        assert(all[i as int] == (fields@[i as int].name@, fields@[i as int].value@));
        proof {
            json::lemma_lookup_removed(json::fields_view(own@), "allOf"@, name@);
        }
        if text::same(name, "allOf") || json::find(own, name).is_none() {
            out.push(Field { name: text::copy(name), value: fields[i].value.duplicate() });
            assert(json::fields_view(out@) =~= json::fields_view(before).push(all[i as int]));
        }
        i += 1;
    }
    out
}

/// Sets every one of `more` in turn.
fn merge(fields: &mut Vec<Field>, more: Vec<Field>)
    ensures
        json::fields_view(final(fields)@) == json::merged(
            json::fields_view(old(fields)@),
            json::fields_view(more@),
        ),
{
    let ghost start = json::fields_view(fields@);
    let ghost all = json::fields_view(more@);
    let mut i: usize = 0;
    assert(all.take(0) =~= seq![]);
    while i < more.len()
        invariant
            i <= more@.len(),
            all == json::fields_view(more@),
            json::fields_view(fields@) == json::merged(start, all.take(i as int)),
        decreases more.len() - i,
    {
        assert(all.take(i as int + 1).drop_last() =~= all.take(i as int));
        assert(all.take(i as int + 1).last() == (more@[i as int].name@, more@[i as int].value@));
        json::insert(fields, more[i].name.as_str(), more[i].value.duplicate());
        i += 1;
    }
    assert(all.take(all.len() as int) =~= all);
}

/// Replaces references by what they refer to, merges combinations, and removes
/// open maps and lists of types.
pub fn resolve_and_clean(value: &Json, defs: &Vec<Field>, depth: usize) -> (res: Json)
    requires
        nests_within(value@, json::fields_view(defs@), depth as nat),
    ensures
        res@ == cleaned(value@, json::fields_view(defs@), depth as nat),
    decreases depth, value,
{
    broadcast use {json::lemma_array_view, json::lemma_object_view};

    let ghost known = json::fields_view(defs@);
    match value {
        Json::Object(fields) => {
            let ghost all = json::fields_view(fields@);
            if let Some(d) = find_target(fields, defs) {
                return resolve_and_clean(&defs[d].value, defs, depth - 1);
            }
            let ghost rewritten = cleaned_fields(value@, known, depth as nat);
            let mut own: Vec<Field> = Vec::new();
            let mut parts: Vec<Json> = Vec::new();
            let mut combines = false;
            if let Some(a) = json::find(fields, "allOf") {
                proof {
                    assert(all[a as int] == (fields@[a as int].name@, fields@[a as int].value@));
                    assert forall|k: int| 0 <= k < a implies (#[trigger] rewritten[k]).0
                        != "allOf"@ by {
                        assert(all[k].0 == fields@[k].name@);
                    }
                    reveal_strlit("allOf");
                    reveal_strlit("type");
                    assert(rewritten[a as int].0 == "allOf"@);
                    lemma_lookup_at(rewritten, "allOf"@, a as int);
                }
                if let Json::Array(items) = &fields[a].value {
                    combines = true;
                    assert(decreases_to!(value => value->Object_0));
                    assert(decreases_to!(fields => fields@));
                    assert(decreases_to!(fields@ => fields@[a as int]));
                    assert(decreases_to!(fields@[a as int] => fields@[a as int].value));
                    let ghost list = fields@[a as int].value;
                    assert(list == Json::Array(*items));
                    proof {
                        reveal_strlit("additionalProperties");
                        lemma_field_nests(value@, known, depth as nat, a as int);
                    }
                    let mut i: usize = 0;
                    while i < items.len()
                        invariant
                            list == Json::Array(*items),
                            decreases_to!(value => list),
                            nests_within(list@, known, depth as nat),
                            known == json::fields_view(defs@),
                            i <= items@.len(),
                            parts@.len() == i,
                            forall|k: int|
                                0 <= k < i ==> (#[trigger] parts@[k])@ == cleaned(
                                    items@[k]@,
                                    known,
                                    depth as nat,
                                ),
                        decreases items.len() - i,
                    {
                        assert(decreases_to!(list => list->Array_0));
                        assert(decreases_to!(items => items@));
                        assert(decreases_to!(items@ => items@[i as int]));
                        proof {
                            lemma_item_nests(list@, known, depth as nat, i as int);
                        }
                        parts.push(resolve_and_clean(&items[i], defs, depth));
                        i += 1;
                    }
                    assert(json::items_view(parts@) =~= cleaned(
                        list@,
                        known,
                        depth as nat,
                    )->Array_0);
                }
            }
            let mut i: usize = 0;
            assert(json::fields_view(own@) =~= seq![]);
            while i < fields.len()
                invariant
                    value == Json::Object(*fields),
                    all == json::fields_view(fields@),
                    known == json::fields_view(defs@),
                    value@ == JsonView::Object(all),
                    nests_within(value@, known, depth as nat),
                    target(all, known) is None,
                    i <= fields@.len(),
                    rewritten == cleaned_fields(value@, known, depth as nat),
                    json::fields_view(own@) == kept(all, rewritten, i as int),
                decreases fields.len() - i,
            {
                let field = &fields[i];
                let ghost before = own@;
                assert(all[i as int] == (field.name@, field.value@));
                if !gives_up(field) {
                    proof {
                        lemma_field_nests(value@, known, depth as nat, i as int);
                    }
                    assert(decreases_to!(value => value->Object_0));
                    assert(decreases_to!(fields => fields@));
                    assert(decreases_to!(fields@ => fields@[i as int]));
                    assert(decreases_to!(fields@[i as int] => fields@[i as int].value));
                    let inner = match (&field.value, text::same(field.name.as_str(), "type")) {
                        (Json::Array(types), true) => {
                            proof {
                                json::lemma_array_view(*types);
                            }
                            match find_type(types) {
                                Some(j) => {
                                    assert(decreases_to!(field.value => field.value->Array_0));
                                    assert(decreases_to!(types => types@));
                                    assert(decreases_to!(types@ => types@[j as int]));
                                    assert(json::items_view(types@)[j as int] == types@[j as int]@);
                                    resolve_and_clean(&types[j], defs, depth)
                                },
                                None => Json::Null,
                            }
                        },
                        _ => resolve_and_clean(&field.value, defs, depth),
                    };
                    own.push(Field { name: text::copy(field.name.as_str()), value: inner });
                    assert(json::fields_view(own@) =~= json::fields_view(before).push(
                        rewritten[i as int],
                    ));
                }
                i += 1;
            }
            let added = if combines {
                let gathered = collect(&parts);
                missing_fields(fields, &gathered)
            } else {
                Vec::new()
            };
            assert(json::fields_view(added@) =~= added_fields(all, rewritten));
            let more = Json::Object(added);
            let mut merged = match tidy(&more) {
                Json::Object(f) => f,
                _ => Vec::new(),
            };
            assert(json::fields_view(merged@) == tidied(
                JsonView::Object(added_fields(all, rewritten)),
            )->Object_0);
            merge(&mut merged, own);
            Json::Object(merged)
        },
        Json::Array(items) => {
            let mut out: Vec<Json> = Vec::new();
            let mut i: usize = 0;
            while i < items.len()
                invariant
                    value == Json::Array(*items),
                    value@ == JsonView::Array(json::items_view(items@)),
                    nests_within(value@, known, depth as nat),
                    known == json::fields_view(defs@),
                    i <= items@.len(),
                    out@.len() == i,
                    forall|k: int|
                        0 <= k < i ==> (#[trigger] out@[k])@ == cleaned(
                            items@[k]@,
                            known,
                            depth as nat,
                        ),
                decreases items.len() - i,
            {
                assert(decreases_to!(value => value->Array_0));
                assert(decreases_to!(items => items@));
                assert(decreases_to!(items@ => items@[i as int]));
                proof {
                    lemma_item_nests(value@, known, depth as nat, i as int);
                }
                out.push(resolve_and_clean(&items[i], defs, depth));
                i += 1;
            }
            assert(json::items_view(out@) =~= cleaned(value@, known, depth as nat)->Array_0);
            Json::Array(out)
        },
        other => other.duplicate(),
    }
}

/// Finds out whether references lie at most `depth` deep inside each other.
fn nests(value: &Json, defs: &Vec<Field>, depth: usize) -> (res: bool)
    ensures
        res == nests_within(value@, json::fields_view(defs@), depth as nat),
    decreases depth, value,
{
    broadcast use {json::lemma_array_view, json::lemma_object_view};

    let ghost known = json::fields_view(defs@);
    match value {
        Json::Object(fields) => {
            let ghost all = json::fields_view(fields@);
            if let Some(d) = find_target(fields, defs) {
                return depth > 0 && nests(&defs[d].value, defs, depth - 1);
            }
            let mut i: usize = 0;
            while i < fields.len()
                invariant
                    value == Json::Object(*fields),
                    all == json::fields_view(fields@),
                    value@ == JsonView::Object(all),
                    known == json::fields_view(defs@),
                    target(all, known) is None,
                    i <= fields@.len(),
                    forall|k: int|
                        0 <= k < i ==> entry_nests(#[trigger] all[k], known, depth as nat),
                decreases fields.len() - i,
            {
                let field = &fields[i];
                assert(all[i as int] == (field.name@, field.value@));
                assert(decreases_to!(value => value->Object_0));
                assert(decreases_to!(fields => fields@));
                assert(decreases_to!(fields@ => fields@[i as int]));
                assert(decreases_to!(fields@[i as int] => fields@[i as int].value));
                let name = field.name.as_str();
                let fine = if text::same(name, "additionalProperties") {
                    true
                } else {
                    match &field.value {
                        Json::Array(items) => {
                            proof {
                                json::lemma_array_view(*items);
                            }
                            if text::same(name, "type") && !text::same(name, "allOf") {
                                match find_type(items) {
                                    Some(j) => {
                                        assert(decreases_to!(field.value => field.value->Array_0));
                                        assert(decreases_to!(items => items@));
                                        assert(decreases_to!(items@ => items@[j as int]));
                                        assert(json::items_view(items@)[j as int]
                                            == items@[j as int]@);
                                        nests(&items[j], defs, depth)
                                    },
                                    None => true,
                                }
                            } else {
                                nests(&field.value, defs, depth)
                            }
                        },
                        _ => text::same(name, "allOf") || nests(&field.value, defs, depth),
                    }
                };
                assert(fine == entry_nests(all[i as int], known, depth as nat));
                if !fine {
                    proof {
                        if nests_within(value@, known, depth as nat) {
                            lemma_field_nests(value@, known, depth as nat, i as int);
                        }
                    }
                    return false;
                }
                i += 1;
            }
            true
        },
        Json::Array(items) => {
            let mut i: usize = 0;
            while i < items.len()
                invariant
                    value == Json::Array(*items),
                    value@ == JsonView::Array(json::items_view(items@)),
                    known == json::fields_view(defs@),
                    i <= items@.len(),
                    forall|k: int|
                        0 <= k < i ==> nests_within(
                            #[trigger] json::items_view(items@)[k],
                            known,
                            depth as nat,
                        ),
                decreases items.len() - i,
            {
                assert(decreases_to!(value => value->Array_0));
                assert(decreases_to!(items => items@));
                assert(decreases_to!(items@ => items@[i as int]));
                assert(json::items_view(items@)[i as int] == items@[i as int]@);
                if !nests(&items[i], defs, depth) {
                    proof {
                        if nests_within(value@, known, depth as nat) {
                            lemma_item_nests(value@, known, depth as nat, i as int);
                        }
                    }
                    return false;
                }
                i += 1;
            }
            true
        },
        _ => true,
    }
}

/// Whether references in a field that is looked at lie at most `depth` deep
/// inside each other.
pub open spec fn entry_nests(field: (Seq<char>, JsonView), defs: Fields, depth: nat) -> bool {
    if field.0 == "additionalProperties"@ {
        true
    } else if field.0 == "allOf"@ {
        field.1 is Array ==> nests_within(field.1, defs, depth)
    } else if field.0 == "type"@ && field.1 is Array {
        match first_type(field.1->Array_0, 0) {
            Some(j) => j < field.1->Array_0.len() ==> nests_within(
                field.1->Array_0[j as int],
                defs,
                depth,
            ),
            None => true,
        }
    } else {
        nests_within(field.1, defs, depth)
    }
}

// ---------------------------------------------------------------------------
// Whole schemas
// ---------------------------------------------------------------------------

/// The definitions of a schema.
pub open spec fn definitions(schema: JsonView) -> Fields {
    let found = match schema.field("definitions"@) {
        Some(d) => Some(d),
        None => schema.field("$defs"@),
    };
    match found {
        Some(JsonView::Object(defs)) => defs,
        _ => seq![],
    }
}

/// The definitions of a schema stand under `definitions`, and under `$defs`
/// where there is no such field; its body has all other fields but the mark of
/// its dialect.
pub proof fn lemma_parts_of_a_schema(fields: Fields, defs: Fields, other: Seq<char>)
    ensures
        json::lookup(fields, "definitions"@) == Some(JsonView::Object(defs)) ==> definitions(
            JsonView::Object(fields),
        ) == defs,
        json::lookup(fields, "definitions"@) is None && json::lookup(fields, "$defs"@) == Some(
            JsonView::Object(defs),
        ) ==> definitions(JsonView::Object(fields)) == defs,
        other != "definitions"@ && other != "$defs"@ && other != "$schema"@ ==> body(
            JsonView::Object(fields),
        ).field(other) == json::lookup(fields, other),
        body(JsonView::Object(fields)).field("$schema"@) is None,
        body(JsonView::Object(fields)).field("definitions"@) is None,
{
    reveal_strlit("definitions");
    reveal_strlit("$defs");
    reveal_strlit("$schema");
    assert("definitions"@.len() == 11 && "$defs"@.len() == 5 && "$schema"@.len() == 7);
    let first = if json::lookup(fields, "definitions"@) is Some {
        "definitions"@
    } else {
        "$defs"@
    };
    let rest = json::removed(fields, first);
    json::lemma_lookup_removed(fields, first, other);
    json::lemma_lookup_removed(rest, "$schema"@, other);
    json::lemma_lookup_removed(fields, first, "definitions"@);
    json::lemma_lookup_removed(rest, "$schema"@, "definitions"@);
    json::lemma_lookup_removed(rest, "$schema"@, "$schema"@);
}

/// A schema without its definitions and without the mark of its dialect.
pub open spec fn body(schema: JsonView) -> JsonView {
    match schema {
        JsonView::Object(fields) => JsonView::Object(
            json::removed(
                json::removed(
                    fields,
                    if json::lookup(fields, "definitions"@) is Some {
                        "definitions"@
                    } else {
                        "$defs"@
                    },
                ),
                "$schema"@,
            ),
        ),
        other => other,
    }
}

/// Whether following the references of a schema comes to an end. A chain of
/// references that does not repeat itself is at most as long as there are
/// definitions.
pub open spec fn references_end(schema: JsonView) -> bool {
    nests_within(body(schema), definitions(schema), definitions(schema).len())
}

/// A schema in the form that the model takes.
pub open spec fn sanitized(schema: JsonView) -> JsonView {
    cleaned(body(schema), definitions(schema), definitions(schema).len())
}

fn split_schema(schema: Json) -> (res: (Json, Vec<Field>))
    ensures
        res.0@ == body(schema@),
        json::fields_view(res.1@) == definitions(schema@),
{
    broadcast use {json::lemma_object_view, json::lemma_array_view};

    match schema {
        Json::Object(fields) => {
            let mut fields = fields;
            let ghost all = json::fields_view(fields@);
            let has_definitions = json::find(&fields, "definitions").is_some();
            let found = if has_definitions {
                json::remove(&mut fields, "definitions")
            } else {
                json::remove(&mut fields, "$defs")
            };
            let _ = json::remove(&mut fields, "$schema");
            let defs = match found {
                Some(Json::Object(defs)) => defs,
                _ => Vec::new(),
            };
            assert(json::fields_view(Seq::empty()) =~= seq![]);
            (Json::Object(fields), defs)
        },
        other => {
            assert(json::fields_view(Seq::empty()) =~= seq![]);
            (other, Vec::new())
        },
    }
}

/// Finds out whether following the references of a schema comes to an end.
pub fn has_finite_references(schema: &Json) -> (res: bool)
    ensures
        res == references_end(schema@),
{
    let (rest, defs) = split_schema(schema.duplicate());
    assert(json::fields_view(defs@).len() == defs@.len());
    nests(&rest, &defs, defs.len())
}

/// Brings a schema into the form that the model takes.
pub fn sanitize_for_gemini(schema: Json) -> (res: Json)
    requires
        references_end(schema@),
    ensures
        res@ == sanitized(schema@),
{
    let (rest, defs) = split_schema(schema);
    assert(json::fields_view(defs@).len() == defs@.len());
    resolve_and_clean(&rest, &defs, defs.len())
}

/// The fields that the caller supplies and the model is not asked for.
pub open spec fn caller_supplied() -> Seq<Seq<char>> {
    seq!["portfolio"@]
}

/// The schema of a function's arguments, without what the caller supplies.
pub open spec fn offered(schema: JsonView) -> JsonView {
    stripped(schema, caller_supplied(), Standing::Elsewhere)
}

/// Removes from the schema of a function's arguments what the caller supplies.
pub fn without_caller_fields(schema: &Json) -> (res: Json)
    ensures
        res@ == offered(schema@),
{
    let mut names: Vec<String> = Vec::new();
    names.push(text::copy("portfolio"));
    assert(text::views(names@) =~= caller_supplied());
    strip_fields(schema, &names, Standing::Elsewhere)
}

/// The schema of a function's arguments as the model sees it.
pub fn sanitized_schema(schema: &Json) -> (res: Json)
    requires
        references_end(offered(schema@)),
    ensures
        res@ == sanitized(offered(schema@)),
{
    sanitize_for_gemini(without_caller_fields(schema))
}

/// Stripping leaves out a property that is named, and nothing else: every other
/// field stays under its name, stripped in turn as what stands under that name.
pub proof fn lemma_stripping_keeps_the_rest(
    fields: Fields,
    names: Seq<Seq<char>>,
    standing: Standing,
    name: Seq<char>,
)
    ensures
        ({
            let left = stripped(JsonView::Object(fields), names, standing);
            &&& standing == Standing::Properties && names.contains(name) ==> left.field(
                name,
            ) is None
            &&& !(standing == Standing::Properties && names.contains(name)) ==> left.field(name)
                == (match json::lookup(fields, name) {
                Some(v) => Some(stripped(v, names, standing_under(name))),
                None => None,
            })
        }),
        standing_under("properties"@) == Standing::Properties,
        standing_under("required"@) == Standing::Required,
        name != "properties"@ && name != "required"@ ==> standing_under(name)
            == Standing::Elsewhere,
{
    reveal_strlit("properties");
    reveal_strlit("required");
    assert("properties"@.len() == 10 && "required"@.len() == 8);
    let value = JsonView::Object(fields);
    lemma_stripped_lookup(fields, names, standing, name, fields.len());
    assert(fields.take(fields.len() as int) =~= fields);
}

/// Of a list of required properties the named ones go, and every other item
/// stays; of any other list every item stays, in its place.
pub proof fn lemma_stripping_keeps_items(
    items: Seq<JsonView>,
    names: Seq<Seq<char>>,
    standing: Standing,
    n: nat,
    i: int,
)
    requires
        0 <= i < n <= items.len(),
    ensures
        !(standing == Standing::Required && items[i] is Text && names.contains(items[i]->Text_0))
            ==> stripped_items(JsonView::Array(items), names, standing, n).contains(
            stripped(items[i], names, Standing::Elsewhere),
        ),
        standing != Standing::Required ==> stripped_items(
            JsonView::Array(items),
            names,
            standing,
            n,
        ).len() == n && stripped_items(JsonView::Array(items), names, standing, n)[i] == stripped(
            items[i],
            names,
            Standing::Elsewhere,
        ),
    decreases n,
{
    let value = JsonView::Array(items);
    let before = stripped_items(value, names, standing, (n - 1) as nat);
    let now = stripped_items(value, names, standing, n);
    let own = stripped(items[i], names, Standing::Elsewhere);
    if n == 1 {
        assert(before.len() == 0);
    }
    if i < n - 1 {
        lemma_stripping_keeps_items(items, names, standing, (n - 1) as nat, i);
        if before.contains(own) {
            let k = choose|k: int| 0 <= k < before.len() && before[k] == own;
            assert(now[k] == own);
        }
    } else {
        if n > 1 {
            lemma_stripping_keeps_items(items, names, standing, (n - 1) as nat, n - 2);
        }
        if !omits_item(standing, names, items[i]) {
            assert(now[before.len() as int] == own);
        }
    }
}

proof fn lemma_stripped_lookup(
    fields: Fields,
    names: Seq<Seq<char>>,
    standing: Standing,
    name: Seq<char>,
    n: nat,
)
    requires
        n <= fields.len(),
    ensures
        json::lookup(stripped_fields(JsonView::Object(fields), names, standing, n), name) == (
        if omits_field(standing, names, name) {
            None
        } else {
            match json::lookup(fields.take(n as int), name) {
                Some(v) => Some(stripped(v, names, standing_under(name))),
                None => None,
            }
        }),
    decreases n,
{
    let value = JsonView::Object(fields);
    let left = stripped_fields(value, names, standing, n);
    if n > 0 {
        lemma_stripped_lookup(fields, names, standing, name, (n - 1) as nat);
        let before = stripped_fields(value, names, standing, (n - 1) as nat);
        let field = fields[n - 1];
        assert(fields.take(n as int) =~= fields.take(n - 1).push(field));
        lemma_lookup_behind(fields.take(n - 1), field, name);
        lemma_lookup_behind(
            before,
            (field.0, stripped(field.1, names, standing_under(field.0))),
            name,
        );
    } else {
        assert(fields.take(0) =~= seq![]);
    }
}

proof fn lemma_lookup_behind(fields: Fields, field: (Seq<char>, JsonView), name: Seq<char>)
    ensures
        json::lookup(fields.push(field), name) == (match json::lookup(fields, name) {
            Some(v) => Some(v),
            None => if field.0 == name {
                Some(field.1)
            } else {
                None
            },
        }),
    decreases fields.len(),
{
    let all = fields.push(field);
    if fields.len() > 0 {
        lemma_lookup_behind(fields.drop_first(), field, name);
        assert(all.drop_first() =~= fields.drop_first().push(field));
    } else {
        assert(all.drop_first() =~= seq![]);
        assert(json::lookup(all.drop_first(), name) is None);
    }
}

/// A reference to a known definition, by either head, stands for the
/// definition.
pub proof fn lemma_references_are_followed(
    fields: Fields,
    defs: Fields,
    depth: nat,
    name: Seq<char>,
)
    requires
        depth > 0,
        json::lookup(defs, name) is Some,
        json::lookup(fields, "$ref"@) == Some(JsonView::Text("#/definitions/"@ + name))
            || json::lookup(fields, "$ref"@) == Some(JsonView::Text("#/$defs/"@ + name)),
    ensures
        cleaned(JsonView::Object(fields), defs, depth) == cleaned(
            json::lookup(defs, name)->Some_0,
            defs,
            (depth - 1) as nat,
        ),
{
    lemma_referred_name(name, name);
}

proof fn lemma_kept_place(fields: Fields, rewritten: Fields, n: int, i: int) -> (k: int)
    requires
        0 <= i < n <= fields.len(),
        rewritten.len() == fields.len(),
        forall|a: int| 0 <= a < fields.len() ==> (#[trigger] rewritten[a]).0 == fields[a].0,
        forall|a: int, b: int| 0 <= a < b < fields.len() ==> fields[a].0 != fields[b].0,
        !given_up(fields[i]),
    ensures
        0 <= k < kept(fields, rewritten, n).len(),
        kept(fields, rewritten, n)[k] == rewritten[i],
        forall|j: int|
            k < j < kept(fields, rewritten, n).len() ==> (#[trigger] kept(
                fields,
                rewritten,
                n,
            )[j]).0 != fields[i].0,
    decreases n,
{
    let before = kept(fields, rewritten, n - 1);
    if i < n - 1 {
        let k = lemma_kept_place(fields, rewritten, n - 1, i);
        assert(rewritten[n - 1].0 == fields[n - 1].0);
        assert(fields[i].0 != fields[n - 1].0);
        k
    } else {
        before.len() as int
    }
}

/// An object that is no reference keeps its fields: each stands under its own
/// name in the form that the model takes, a list of types as the first that is
/// not null. Only combinations, open maps and lists without a type go.
pub proof fn lemma_cleaning_keeps_the_rest(fields: Fields, defs: Fields, depth: nat, i: int)
    requires
        0 <= i < fields.len(),
        target(fields, defs) is None,
        forall|a: int, b: int| 0 <= a < b < fields.len() ==> fields[a].0 != fields[b].0,
        fields[i].0 != "allOf"@,
        fields[i].0 != "additionalProperties"@,
    ensures
        !(fields[i].0 == "type"@ && fields[i].1 is Array) ==> cleaned(
            JsonView::Object(fields),
            defs,
            depth,
        ).field(fields[i].0) == Some(cleaned(fields[i].1, defs, depth)),
        fields[i].0 == "type"@ && fields[i].1 is Array ==> forall|j: int|
            0 <= j < fields[i].1->Array_0.len() && fields[i].1->Array_0[j] != JsonView::Text(
                "null"@,
            ) && (forall|h: int|
                0 <= h < j ==> (#[trigger] fields[i].1->Array_0[h]) == JsonView::Text("null"@))
                ==> cleaned(JsonView::Object(fields), defs, depth).field(fields[i].0) == Some(
                cleaned(#[trigger] fields[i].1->Array_0[j], defs, depth),
            ),
{
    let value = JsonView::Object(fields);
    let rewritten = cleaned_fields(value, defs, depth);
    let name = fields[i].0;
    let added = tidied(JsonView::Object(added_fields(fields, rewritten)))->Object_0;
    let own = kept(fields, rewritten, fields.len() as int);
    assert(cleaned(value, defs, depth) == combined(fields, rewritten));
    assert forall|a: int| 0 <= a < fields.len() implies (#[trigger] rewritten[a]).0
        == fields[a].0 by {}
    if fields[i].0 == "type"@ && fields[i].1 is Array {
        let types = fields[i].1->Array_0;
        assert forall|j: int|
            0 <= j < types.len() && types[j] != JsonView::Text("null"@) && (forall|h: int|
                0 <= h < j ==> (#[trigger] types[h]) == JsonView::Text("null"@)) implies cleaned(
            value,
            defs,
            depth,
        ).field(name) == Some(cleaned(#[trigger] types[j], defs, depth)) by {
            lemma_first_of_the_types(types, 0, j as nat);
            let k = lemma_kept_place(fields, rewritten, fields.len() as int, i);
            json::lemma_lookup_merged(added, own, name);
            assert(own[k] == rewritten[i]);
        }
    } else {
        let k = lemma_kept_place(fields, rewritten, fields.len() as int, i);
        json::lemma_lookup_merged(added, own, name);
        assert(own[k] == rewritten[i]);
    }
}

proof fn lemma_first_of_the_types(types: Seq<JsonView>, from: nat, j: nat)
    requires
        from <= j < types.len(),
        types[j as int] != JsonView::Text("null"@),
        forall|h: int| from <= h < j ==> (#[trigger] types[h]) == JsonView::Text("null"@),
    ensures
        first_type(types, from) == Some(j),
    decreases j - from,
{
    if from < j {
        assert(types[from as int] == JsonView::Text("null"@));
        lemma_first_of_the_types(types, from + 1, j);
    }
}

/// Whether a schema nowhere lists or requires one of the named properties.
pub open spec fn free_of(value: JsonView, names: Seq<Seq<char>>, standing: Standing) -> bool
    decreases value,
{
    match value {
        JsonView::Object(fields) => forall|i: int|
            0 <= i < fields.len() ==> !omits_field(standing, names, (#[trigger] fields[i]).0)
                && free_of(fields[i].1, names, standing_under(fields[i].0)),
        JsonView::Array(items) => forall|i: int|
            0 <= i < items.len() ==> !omits_item(standing, names, #[trigger] items[i]) && free_of(
                items[i],
                names,
                Standing::Elsewhere,
            ),
        _ => true,
    }
}

/// Removing properties removes them everywhere: no part of what is left lists
/// or requires one of them. So the model is never asked for what the caller
/// supplies.
pub proof fn lemma_stripped_is_free(value: JsonView, names: Seq<Seq<char>>, standing: Standing)
    ensures
        free_of(stripped(value, names, standing), names, standing),
    decreases value, json::breadth(value) + 1,
{
    match value {
        JsonView::Object(fields) => {
            lemma_stripped_fields_free(value, names, standing, fields.len());
        },
        JsonView::Array(items) => {
            lemma_stripped_items_free(value, names, standing, items.len());
        },
        _ => {},
    }
}

proof fn lemma_stripped_fields_free(
    value: JsonView,
    names: Seq<Seq<char>>,
    standing: Standing,
    n: nat,
)
    requires
        value is Object,
        n <= value->Object_0.len(),
    ensures
        free_of(JsonView::Object(stripped_fields(value, names, standing, n)), names, standing),
    decreases value, n,
{
    if n > 0 {
        let field = value->Object_0[n - 1];
        lemma_stripped_fields_free(value, names, standing, (n - 1) as nat);
        lemma_stripped_is_free(field.1, names, standing_under(field.0));
        let before = stripped_fields(value, names, standing, (n - 1) as nat);
        let now = stripped_fields(value, names, standing, n);
        assert forall|i: int| 0 <= i < now.len() implies !omits_field(
            standing,
            names,
            (#[trigger] now[i]).0,
        ) && free_of(now[i].1, names, standing_under(now[i].0)) by {
            if i < before.len() {
                assert(now[i] == before[i]);
                assert(JsonView::Object(before)->Object_0[i] == before[i]);
            }
        }
    }
}

proof fn lemma_stripped_items_free(
    value: JsonView,
    names: Seq<Seq<char>>,
    standing: Standing,
    n: nat,
)
    requires
        value is Array,
        n <= value->Array_0.len(),
    ensures
        free_of(JsonView::Array(stripped_items(value, names, standing, n)), names, standing),
    decreases value, n,
{
    if n > 0 {
        let item = value->Array_0[n - 1];
        lemma_stripped_items_free(value, names, standing, (n - 1) as nat);
        lemma_stripped_is_free(item, names, Standing::Elsewhere);
        let before = stripped_items(value, names, standing, (n - 1) as nat);
        let now = stripped_items(value, names, standing, n);
        assert forall|i: int| 0 <= i < now.len() implies !omits_item(
            standing,
            names,
            #[trigger] now[i],
        ) && free_of(now[i], names, Standing::Elsewhere) by {
            if i < before.len() {
                assert(now[i] == before[i]);
                assert(JsonView::Array(before)->Array_0[i] == before[i]);
            }
        }
    }
}

// ---------------------------------------------------------------------------
// What cleaning achieves
// ---------------------------------------------------------------------------

/// Whether a field is one that the model takes: no combination, no open map,
/// and, where `types` is asked for, no list of types.
pub open spec fn is_taken(field: (Seq<char>, JsonView), types: bool) -> bool {
    &&& field.0 != "allOf"@
    &&& field.0 != "additionalProperties"@
    &&& types && field.0 == "type"@ ==> !(field.1 is Array)
}

/// Whether every field of every object inside a schema is one that the model
/// takes.
pub open spec fn taken(value: JsonView, types: bool) -> bool
    decreases value,
{
    match value {
        JsonView::Object(fields) => forall|i: int|
            0 <= i < fields.len() ==> is_taken(#[trigger] fields[i], types) && taken(
                fields[i].1,
                types,
            ),
        JsonView::Array(items) => forall|i: int|
            0 <= i < items.len() ==> taken(#[trigger] items[i], types),
        _ => true,
    }
}

/// Whether every list of types inside a schema is a list of names.
pub open spec fn types_are_names(value: JsonView) -> bool
    decreases value,
{
    match value {
        JsonView::Object(fields) => forall|i: int|
            0 <= i < fields.len() ==> {
                &&& types_are_names((#[trigger] fields[i]).1)
                &&& fields[i].0 == "type"@ && fields[i].1 is Array ==> forall|j: int|
                    0 <= j < fields[i].1->Array_0.len() ==> (
                    #[trigger] fields[i].1->Array_0[j]) is Text
            },
        JsonView::Array(items) => forall|i: int|
            0 <= i < items.len() ==> types_are_names(#[trigger] items[i]),
        _ => true,
    }
}

/// Whether every definition is an object whose lists of types are lists of
/// names.
pub open spec fn plain_definitions(defs: Fields) -> bool {
    forall|i: int|
        0 <= i < defs.len() ==> (#[trigger] defs[i]).1 is Object && types_are_names(defs[i].1)
}

/// Whether all fields are ones that the model takes.
pub open spec fn all_taken(fields: Fields, types: bool) -> bool {
    forall|i: int|
        0 <= i < fields.len() ==> is_taken(#[trigger] fields[i], types) && taken(fields[i].1, types)
}

proof fn lemma_inserted_taken(fields: Fields, name: Seq<char>, value: JsonView, types: bool)
    requires
        all_taken(fields, types),
        is_taken((name, value), types),
        taken(value, types),
    ensures
        all_taken(json::inserted(fields, name, value), types),
    decreases fields.len(),
{
    let result = json::inserted(fields, name, value);
    if fields.len() == 0 {
    } else if fields[0].0 == name || text::precedes(name, fields[0].0) {
        assert forall|i: int| 0 <= i < result.len() implies is_taken(#[trigger] result[i], types)
            && taken(result[i].1, types) by {
            if i > 0 {
                if fields[0].0 == name {
                    assert(result[i] == fields[i]);
                } else {
                    assert(result[i] == fields[i - 1]);
                }
            }
        }
    } else {
        let rest = fields.drop_first();
        assert forall|i: int| 0 <= i < rest.len() implies is_taken(#[trigger] rest[i], types)
            && taken(rest[i].1, types) by {
            assert(rest[i] == fields[i + 1]);
        }
        lemma_inserted_taken(rest, name, value, types);
        let inner = json::inserted(rest, name, value);
        assert forall|i: int| 0 <= i < result.len() implies is_taken(#[trigger] result[i], types)
            && taken(result[i].1, types) by {
            if i > 0 {
                assert(result[i] == inner[i - 1]);
            } else {
                assert(result[0] == fields[0]);
            }
        }
    }
}

proof fn lemma_merged_taken(fields: Fields, more: Fields, types: bool)
    requires
        all_taken(fields, types),
        all_taken(more, types),
    ensures
        all_taken(json::merged(fields, more), types),
    decreases more.len(),
{
    if more.len() > 0 {
        assert forall|i: int| 0 <= i < more.drop_last().len() implies is_taken(
            #[trigger] more.drop_last()[i],
            types,
        ) && taken(more.drop_last()[i].1, types) by {
            assert(more.drop_last()[i] == more[i]);
        }
        lemma_merged_taken(fields, more.drop_last(), types);
        assert(more[more.len() - 1] == more.last());
        lemma_inserted_taken(
            json::merged(fields, more.drop_last()),
            more.last().0,
            more.last().1,
            types,
        );
    }
}

proof fn lemma_completed_taken(base: Fields, more: Fields, types: bool)
    requires
        all_taken(base, types),
        all_taken(more, types),
    ensures
        all_taken(completed(base, more), types),
    decreases more.len(),
{
    if more.len() > 0 {
        assert forall|i: int| 0 <= i < more.drop_last().len() implies is_taken(
            #[trigger] more.drop_last()[i],
            types,
        ) && taken(more.drop_last()[i].1, types) by {
            assert(more.drop_last()[i] == more[i]);
        }
        lemma_completed_taken(base, more.drop_last(), types);
        assert(more[more.len() - 1] == more.last());
        if json::lookup(completed(base, more.drop_last()), more.last().0) is None {
            lemma_inserted_taken(
                completed(base, more.drop_last()),
                more.last().0,
                more.last().1,
                types,
            );
        }
    }
}

proof fn lemma_collected_taken(items: Seq<JsonView>, n: int, types: bool)
    requires
        0 <= n <= items.len(),
        forall|i: int| 0 <= i < items.len() ==> taken(#[trigger] items[i], types),
    ensures
        all_taken(collected(items, n), types),
    decreases n,
{
    if n > 0 {
        lemma_collected_taken(items, n - 1, types);
        assert(taken(items[n - 1], types));
        if let JsonView::Object(inner) = items[n - 1] {
            lemma_completed_taken(collected(items, n - 1), inner, types);
        }
    }
}

proof fn lemma_missing_taken(own: Fields, fields: Fields, n: int, types: bool)
    requires
        0 <= n <= fields.len(),
        all_taken(fields, types),
    ensures
        all_taken(missing_from(own, fields, n), types),
    decreases n,
{
    if n > 0 {
        lemma_missing_taken(own, fields, n - 1, types);
        assert(is_taken(fields[n - 1], types));
    }
}

proof fn lemma_kept_taken(fields: Fields, rewritten: Fields, n: int, types: bool)
    requires
        0 <= n <= fields.len(),
        rewritten.len() == fields.len(),
        forall|i: int| 0 <= i < fields.len() ==> (#[trigger] rewritten[i]).0 == fields[i].0,
        forall|i: int|
            0 <= i < fields.len() && !given_up(fields[i]) ==> taken(
                (#[trigger] rewritten[i]).1,
                types,
            ) && (types && fields[i].0 == "type"@ ==> !(rewritten[i].1 is Array)),
    ensures
        all_taken(kept(fields, rewritten, n), types),
    decreases n,
{
    if n > 0 {
        lemma_kept_taken(fields, rewritten, n - 1, types);
        assert(rewritten[n - 1].0 == fields[n - 1].0);
    }
}

proof fn lemma_first_type(types: Seq<JsonView>, from: nat)
    ensures
        first_type(types, from) is Some ==> first_type(types, from)->Some_0 < types.len(),
    decreases types.len() - from,
{
    if from < types.len() && types[from as int] == JsonView::Text("null"@) {
        lemma_first_type(types, from + 1);
    }
}

proof fn lemma_tidied_taken(value: JsonView, types: bool)
    requires
        types ==> taken(value, true),
    ensures
        taken(tidied(value), types),
        !(value is Array) ==> !(tidied(value) is Array),
    decreases value,
{
    match value {
        JsonView::Object(fields) => {
            let rewritten = tidied_fields(value);
            assert forall|i: int| 0 <= i < fields.len() && !given_up(fields[i]) implies taken(
                (#[trigger] rewritten[i]).1,
                types,
            ) && (types && fields[i].0 == "type"@ ==> !(rewritten[i].1 is Array)) by {
                let field = fields[i];
                assert(types ==> is_taken(field, true));
                if field.0 == "type"@ && field.1 is Array {
                    let list = field.1->Array_0;
                    lemma_first_type(list, 0);
                    let j = first_type(list, 0)->Some_0 as int;
                    lemma_tidied_taken(list[j], types);
                } else {
                    lemma_tidied_taken(field.1, types);
                }
            }
            lemma_kept_taken(fields, rewritten, fields.len() as int, types);
        },
        JsonView::Array(items) => {
            assert forall|i: int| 0 <= i < items.len() implies taken(
                #[trigger] tidied(value)->Array_0[i],
                types,
            ) by {
                lemma_tidied_taken(items[i], types);
            }
        },
        _ => {},
    }
}

proof fn lemma_lookup_is_a_field(fields: Fields, name: Seq<char>)
    ensures
        json::lookup(fields, name) is Some ==> exists|i: int|
            0 <= i < fields.len() && (#[trigger] fields[i]) == (
                name,
                json::lookup(fields, name)->Some_0,
            ),
    decreases fields.len(),
{
    if fields.len() > 0 {
        if fields[0].0 == name {
            assert(fields[0] == (name, fields[0].1));
        } else {
            let rest = fields.drop_first();
            lemma_lookup_is_a_field(rest, name);
            if json::lookup(rest, name) is Some {
                let i = choose|i: int|
                    0 <= i < rest.len() && (#[trigger] rest[i]) == (
                        name,
                        json::lookup(rest, name)->Some_0,
                    );
                assert(fields[i + 1] == rest[i]);
            }
        }
    }
}

/// A cleaned schema holds no combination and no open map anywhere. Where every
/// list of types in it and in its definitions is a list of names, and every
/// definition is an object, it holds no list of types either.
pub proof fn lemma_cleaned_is_taken(value: JsonView, defs: Fields, depth: nat, types: bool)
    requires
        nests_within(value, defs, depth),
        types ==> types_are_names(value) && plain_definitions(defs),
    ensures
        taken(cleaned(value, defs, depth), types),
        !(value is Array) && types ==> !(cleaned(value, defs, depth) is Array),
    decreases depth, value, 1nat,
{
    match value {
        JsonView::Object(fields) => match target(fields, defs) {
            Some(referred) => {
                if let Some(JsonView::Text(reference)) = json::lookup(fields, "$ref"@) {
                    lemma_lookup_is_a_field(defs, referred_name(reference)->Some_0);
                }
                lemma_cleaned_is_taken(referred, defs, (depth - 1) as nat, types);
            },
            None => {
                let rewritten = cleaned_fields(value, defs, depth);
                assert forall|i: int| 0 <= i < fields.len() && !given_up(fields[i]) implies taken(
                    (#[trigger] rewritten[i]).1,
                    types,
                ) && (types && fields[i].0 == "type"@ ==> !(rewritten[i].1 is Array)) by {
                    let field = fields[i];
                    lemma_field_nests(value, defs, depth, i);
                    if field.0 == "type"@ && field.1 is Array {
                        let list = field.1->Array_0;
                        lemma_first_type(list, 0);
                        let j = first_type(list, 0)->Some_0 as int;
                        assert(types ==> list[j] is Text);
                        assert(types ==> types_are_names(list[j]));
                        lemma_cleaned_is_taken(list[j], defs, depth, types);
                    } else {
                        lemma_cleaned_is_taken(field.1, defs, depth, types);
                    }
                }
                lemma_kept_taken(fields, rewritten, fields.len() as int, types);
                let added = added_fields(fields, rewritten);
                assert(all_taken(added, types)) by {
                    lemma_added_taken(value, defs, depth, types);
                }
                assert(taken(JsonView::Object(added), types));
                lemma_tidied_taken(JsonView::Object(added), types);
                lemma_merged_taken(
                    tidied(JsonView::Object(added))->Object_0,
                    kept(fields, rewritten, fields.len() as int),
                    types,
                );
            },
        },
        JsonView::Array(items) => {
            assert forall|i: int| 0 <= i < items.len() implies taken(
                #[trigger] cleaned(value, defs, depth)->Array_0[i],
                types,
            ) by {
                lemma_item_nests(value, defs, depth, i);
                lemma_cleaned_is_taken(items[i], defs, depth, types);
            }
        },
        _ => {},
    }
}

proof fn lemma_added_taken(value: JsonView, defs: Fields, depth: nat, types: bool)
    requires
        value is Object,
        target(value->Object_0, defs) is None,
        nests_within(value, defs, depth),
        types ==> types_are_names(value) && plain_definitions(defs),
    ensures
        all_taken(added_fields(value->Object_0, cleaned_fields(value, defs, depth)), types),
    decreases depth, value, 0nat,
{
    let fields = value->Object_0;
    let rewritten = cleaned_fields(value, defs, depth);
    if let (Some(JsonView::Array(_)), Some(JsonView::Array(parts))) = (
        json::lookup(fields, "allOf"@),
        json::lookup(rewritten, "allOf"@),
    ) {
        let a = first_named(fields, "allOf"@, 0);
        assert(fields.skip(0) =~= fields);
        lemma_first_named(fields, "allOf"@, 0);
        lemma_lookup_at(fields, "allOf"@, a);
        reveal_strlit("allOf");
        reveal_strlit("type");
        reveal_strlit("additionalProperties");
        assert(rewritten[a] == ("allOf"@, cleaned(fields[a].1, defs, depth)));
        assert forall|k: int| 0 <= k < a implies (#[trigger] rewritten[k]).0 != "allOf"@ by {
            assert(fields[k].0 != "allOf"@);
        }
        lemma_lookup_at(rewritten, "allOf"@, a);
        lemma_field_nests(value, defs, depth, a);
        assert forall|k: int| 0 <= k < parts.len() implies taken(#[trigger] parts[k], types) by {
            lemma_item_nests(fields[a].1, defs, depth, k);
            assert(types ==> types_are_names(fields[a].1));
            lemma_cleaned_is_taken(fields[a].1->Array_0[k], defs, depth, types);
        }
        lemma_collected_taken(parts, parts.len() as int, types);
        let all = collected(parts, parts.len() as int);
        lemma_missing_taken(json::removed(fields, "allOf"@), all, all.len() as int, types);
    }
}

/// The place of the first field called `name` from `from` on.
spec fn first_named(fields: Fields, name: Seq<char>, from: int) -> int
    decreases fields.len() - from,
{
    if from >= fields.len() || fields[from].0 == name {
        from
    } else {
        first_named(fields, name, from + 1)
    }
}

proof fn lemma_first_named(fields: Fields, name: Seq<char>, from: int)
    requires
        0 <= from <= fields.len(),
        json::lookup(fields.skip(from), name) is Some,
    ensures
        from <= first_named(fields, name, from) < fields.len(),
        fields[first_named(fields, name, from)].0 == name,
        forall|k: int| from <= k < first_named(fields, name, from) ==> (#[trigger] fields[k]).0 != name,
    decreases fields.len() - from,
{
    let rest = fields.skip(from);
    assert(rest.len() > 0);
    assert(rest[0] == fields[from]);
    if fields[from].0 != name {
        assert(rest.drop_first() =~= fields.skip(from + 1));
        lemma_first_named(fields, name, from + 1);
    }
}

// ---------------------------------------------------------------------------
// The functions
// ---------------------------------------------------------------------------

/// What the model is told of `run_factor_shock`.
pub const FACTOR_SHOCK_DESCRIPTION: &'static str = "Parse the user's request into FactorShock parameters: shocks (as simple percent returns, e.g. -12.0 for -12%) applied to one or more of MARKET, USDINR, BRENT, GOLD_USD, RATES_PROXY, and whether to propagate the shock to unspecified factors. Portfolio holdings and weights are provided separately; only extract the shock parameters from the user's text. Use this when the user asks what happens to their portfolio under a hypothetical market move (a crash, a rate move, a commodity move, etc.).";

/// What the model is told of `run_risk_decomposition`.
pub const RISK_DECOMPOSITION_DESCRIPTION: &'static str = "Parse the user's request into RiskDecomposition parameters. Portfolio holdings and weights are provided separately; only extract the (optional) frequency/window parameters from the user's text, if any are mentioned. Use this when the user asks about their current risk level, volatility, or where their risk is concentrated (by stock or by factor) without describing a hypothetical shock or a rebalance.";

/// What the model is told of `run_cvar_rebalance`.
pub const CVAR_REBALANCE_DESCRIPTION: &'static str = "Parse the user's request into CvarRebalance parameters: confidence_level (default 0.95), per_name_cap, turnover_limit, and commission_bps. Portfolio holdings and weights are provided separately; only extract these parameters from the user's text. Use this when the user asks to reduce tail risk, rebalance, or cut CVaR, especially if they mention a turnover or risk budget.";

/// What the model is told of `run_portfolio_performance`.
pub const PORTFOLIO_PERFORMANCE_DESCRIPTION: &'static str = "Parse the user's request into PortfolioPerformance parameters. Portfolio holdings and weights are provided separately; only extract the (optional) frequency/window parameters from the user's text, if any are mentioned. Use this when the user asks how their portfolio has actually been doing, its returns, gains/losses, or drawdown over some recent period -- anything about realized historical performance, not a hypothetical shock, a current risk breakdown, or a rebalance.";

/// What the model is told of `run_risk_drift`.
pub const RISK_DRIFT_DESCRIPTION: &'static str = "Compare current portfolio risk against a prior snapshot. Use when the user asks what has changed in their risk, whether risk has increased, or how their exposure has shifted over time. Leave baseline_snapshot_id empty to use the most recent prior snapshot automatically.";

/// The schemas of the arguments of the functions.
#[derive(Debug)]
pub struct ArgumentSchemas {
    pub factor_shock: Json,
    pub risk_decomposition: Json,
    pub cvar_rebalance: Json,
    pub portfolio_performance: Json,
    pub risk_drift: Json,
}

/// Whether a declaration has the given name and description, and offers a
/// schema in the form that the model takes.
pub open spec fn declares(
    declaration: FunctionDeclaration,
    name: Seq<char>,
    description: Seq<char>,
    schema: JsonView,
) -> bool {
    &&& declaration.name@ == name
    &&& declaration.description@ == description
    &&& declaration.parameters@ == sanitized(offered(schema))
}

fn declare(name: &str, description: &str, schema: &Json) -> (res: FunctionDeclaration)
    requires
        references_end(offered(schema@)),
    ensures
        declares(res, name@, description@, schema@),
{
    FunctionDeclaration {
        name: text::copy(name),
        description: text::copy(description),
        parameters: sanitized_schema(schema),
    }
}

/// The functions that the model may call, one for each kind of experiment that
/// it extracts: which one it calls says which experiment is meant.
pub fn experiment_function_declarations(schemas: &ArgumentSchemas) -> (res: Vec<
    FunctionDeclaration,
>)
    requires
        references_end(offered(schemas.factor_shock@)),
        references_end(offered(schemas.risk_decomposition@)),
        references_end(offered(schemas.cvar_rebalance@)),
        references_end(offered(schemas.portfolio_performance@)),
        references_end(offered(schemas.risk_drift@)),
    ensures
        res@.len() == 5,
        declares(
            res@[0],
            FACTOR_SHOCK_FUNCTION@,
            FACTOR_SHOCK_DESCRIPTION@,
            schemas.factor_shock@,
        ),
        declares(
            res@[1],
            RISK_DECOMPOSITION_FUNCTION@,
            RISK_DECOMPOSITION_DESCRIPTION@,
            schemas.risk_decomposition@,
        ),
        declares(
            res@[2],
            CVAR_REBALANCE_FUNCTION@,
            CVAR_REBALANCE_DESCRIPTION@,
            schemas.cvar_rebalance@,
        ),
        declares(
            res@[3],
            PORTFOLIO_PERFORMANCE_FUNCTION@,
            PORTFOLIO_PERFORMANCE_DESCRIPTION@,
            schemas.portfolio_performance@,
        ),
        declares(res@[4], RISK_DRIFT_FUNCTION@, RISK_DRIFT_DESCRIPTION@, schemas.risk_drift@),
{
    let mut out: Vec<FunctionDeclaration> = Vec::new();
    out.push(declare(FACTOR_SHOCK_FUNCTION, FACTOR_SHOCK_DESCRIPTION, &schemas.factor_shock));
    out.push(
        declare(
            RISK_DECOMPOSITION_FUNCTION,
            RISK_DECOMPOSITION_DESCRIPTION,
            &schemas.risk_decomposition,
        ),
    );
    out.push(declare(CVAR_REBALANCE_FUNCTION, CVAR_REBALANCE_DESCRIPTION, &schemas.cvar_rebalance));
    out.push(
        declare(
            PORTFOLIO_PERFORMANCE_FUNCTION,
            PORTFOLIO_PERFORMANCE_DESCRIPTION,
            &schemas.portfolio_performance,
        ),
    );
    out.push(declare(RISK_DRIFT_FUNCTION, RISK_DRIFT_DESCRIPTION, &schemas.risk_drift));
    out
}

} // verus!
