//! What a schema lets in, and what it learns.

use vstd::prelude::*;
use crate::{ip, json, schema, validation};
use crate::json::{JsonV, NumV};
use crate::schema::{SchemaV, TantivyFieldType};
use crate::validation::{RefusalsV, VerdictV};

verus! {

/// A text is read as a date where it stands in one of the forms that a date is written in.
pub proof fn law_a_date_is_read_in_every_form(text: Seq<char>)
    ensures
        validation::date_secs(text) is Some <==> {
            ||| validation::rfc3339_secs(text) is Some
            ||| validation::naive_datetime_secs(text, "%Y-%m-%d %H:%M:%S"@) is Some
            ||| validation::naive_datetime_secs(text, "%Y-%m-%d %H:%M"@) is Some
            ||| validation::naive_datetime_secs(text, "%Y-%m-%dT%H:%M:%S"@) is Some
            ||| validation::naive_datetime_secs(text, "%Y-%m-%dT%H:%M"@) is Some
            ||| validation::naive_datetime_secs(text, "%Y-%m-%d %H:%M:%S%.f"@) is Some
            ||| validation::naive_datetime_secs(text, "%Y-%m-%dT%H:%M:%S%.f"@) is Some
            ||| validation::naive_date_secs(text, "%Y-%m-%d"@) is Some
            ||| validation::naive_date_secs(text, "%Y/%m/%d"@) is Some
            ||| validation::naive_date_secs(text, "%Y%m%d"@) is Some
            ||| validation::naive_date_secs(text, "%Y-%m"@) is Some
            ||| validation::naive_date_secs(text, "%Y"@) is Some
        },
        validation::rfc3339_secs(text) is Some ==> validation::date_secs(text)
            == validation::rfc3339_secs(text),
{
    let one = validation::datetime_readings(text);
    let other = validation::date_readings(text);
    lemma_first_reading(one);
    lemma_first_reading(other);
    if validation::first_reading(one) is None {
        assert(one[0] is None && one[1] is None && one[2] is None);
        assert(one[3] is None && one[4] is None && one[5] is None);
    } else {
        let i = choose|i: int| 0 <= i < one.len() && (#[trigger] one[i]) is Some;
    }
    if validation::first_reading(other) is None {
        assert(other[0] is None && other[1] is None && other[2] is None);
        assert(other[3] is None && other[4] is None);
    } else {
        let i = choose|i: int| 0 <= i < other.len() && (#[trigger] other[i]) is Some;
    }
}

/// There is a first reading where there is any.
proof fn lemma_first_reading(readings: Seq<Option<i64>>)
    ensures
        validation::first_reading(readings) is Some <==> exists|i: int|
            0 <= i < readings.len() && (#[trigger] readings[i]) is Some,
    decreases readings.len(),
{
    if readings.len() > 0 {
        let rest = readings.drop_first();
        lemma_first_reading(rest);
        if readings[0] is None {
            if exists|i: int| 0 <= i < rest.len() && (#[trigger] rest[i]) is Some {
                let i = choose|i: int| 0 <= i < rest.len() && (#[trigger] rest[i]) is Some;
                assert(readings[i + 1] is Some);
            }
            if exists|i: int| 0 <= i < readings.len() && (#[trigger] readings[i]) is Some {
                let i = choose|i: int| 0 <= i < readings.len() && (#[trigger] readings[i]) is Some;
                assert(rest[i - 1] is Some);
            }
        }
    }
}

/// A field holds one value exactly where the value reads as one of its type: a date field a text that
/// is a date, an address field a text that is an address, a truth value field a truth value, a number
/// field a number that is as large as it can hold or one with a fraction. A text is no value of a number
/// or a truth value field.
pub proof fn law_a_field_holds_values_of_its_type(
    field: Seq<char>,
    declared: TantivyFieldType,
    value: JsonV,
    refusals: RefusalsV,
)
    requires
        value !is Null,
        value !is Array,
    ensures
        ({
            let holds = validation::storage_error(field, declared, value, refusals) is None;
            match declared {
                TantivyFieldType::Text => holds,
                TantivyFieldType::Json => holds,
                TantivyFieldType::Bytes => !holds,
                TantivyFieldType::Date => holds <==> (value matches JsonV::Text(t)
                    && validation::date_secs(t) is Some),
                TantivyFieldType::Ip => holds <==> (value matches JsonV::Text(t) && ip::is_address(t)
                    && validation::date_secs(t) is None),
                TantivyFieldType::String => holds <==> (value matches JsonV::Text(t)
                    && !ip::is_address(t) && validation::date_secs(t) is None),
                TantivyFieldType::Boolean => holds <==> value is Bool,
                TantivyFieldType::I64 => holds <==> {
                    ||| value matches JsonV::Number(NumV::Unsigned(n)) && n <= i64::MAX
                    ||| value matches JsonV::Number(NumV::Negative(_))
                    ||| value matches JsonV::Number(NumV::Real(_))
                },
                TantivyFieldType::U64 => holds <==> {
                    ||| value matches JsonV::Number(NumV::Unsigned(n)) && n > i64::MAX
                    ||| value matches JsonV::Number(NumV::Real(_))
                },
                TantivyFieldType::F64 => holds <==> value matches JsonV::Number(NumV::Real(_)),
                TantivyFieldType::Facet => holds <==> (value matches JsonV::Text(path)
                    && json::value_under(refusals.facets, path) is None),
            }
        }),
{
}

/// A list of values is held where each of them is, and an absent value by any field.
pub proof fn law_a_field_holds_lists_and_absence(
    field: Seq<char>,
    declared: TantivyFieldType,
    items: Seq<JsonV>,
    refusals: RefusalsV,
)
    ensures
        validation::storage_error(field, declared, JsonV::Null, refusals) is None,
        validation::takes_lists_apart(declared) && (forall|i: int|
            0 <= i < items.len() ==> (#[trigger] items[i]) !is Array) ==> (validation::storage_error(
            field,
            declared,
            JsonV::Array(items),
            refusals,
        ) is None <==> forall|i: int|
            0 <= i < items.len() ==> validation::storage_error(
                field,
                declared,
                #[trigger] items[i],
                refusals,
            ) is None),
        validation::takes_lists_apart(declared) <==> declared !is Text && declared !is Json && declared
            !is Bytes,
{
    if validation::takes_lists_apart(declared) {
        validation::law_a_list_is_judged_by_its_elements(field, declared, items, refusals);
    }
}

/// Whether every entry of a document is one that its schema can hold.
pub open spec fn all_held(
    entries: Seq<(Seq<char>, JsonV)>,
    schema: SchemaV,
    refusals: RefusalsV,
) -> bool {
    forall|i: int|
        0 <= i < entries.len() && (#[trigger] entries[i]).0 != "id"@ ==> (schema.field(
            entries[i].0,
        ) matches Some(def) ==> validation::storage_error(
            entries[i].0,
            def.field_type,
            entries[i].1,
            refusals,
        ) is None)
}

/// The fields of a document are judged one by one: they pass where each is held, and those that are new
/// are learned, each with the type that its value reads as, and no others.
proof fn lemma_judged(entries: Seq<(Seq<char>, JsonV)>, schema: SchemaV, refusals: RefusalsV)
    ensures
        validation::judged_fields(entries, schema, refusals) is Ok <==> all_held(
            entries,
            schema,
            refusals,
        ),
        validation::judged_fields(entries, schema, refusals) matches Ok(learned) ==> {
            &&& forall|i: int|
                0 <= i < entries.len() && (#[trigger] entries[i]).0 != "id"@ && schema.field(
                    entries[i].0,
                ) is None ==> learned.contains(
                    (entries[i].0, validation::inferred_type(entries[i].1)),
                )
            &&& forall|k: int|
                0 <= k < learned.len() ==> is_learned_of(#[trigger] learned[k], entries, schema)
        },
    decreases entries.len(),
{
    if entries.len() > 0 {
        let shorter = entries.drop_last();
        let n = shorter.len() as int;
        lemma_judged(shorter, schema, refusals);
        assert(entries[n] == entries.last());
        if all_held(shorter, schema, refusals) {
            assert forall|i: int| 0 <= i < n implies entries[i] == #[trigger] shorter[i] by {}
            if validation::judged_fields(entries, schema, refusals) is Ok {
                assert forall|i: int|
                    0 <= i < entries.len() && (#[trigger] entries[i]).0 != "id"@ implies (schema.field(
                    entries[i].0,
                ) matches Some(def) ==> validation::storage_error(
                    entries[i].0,
                    def.field_type,
                    entries[i].1,
                    refusals,
                ) is None) by {
                    if i < n {
                        assert(shorter[i] == entries[i]);
                    }
                }
            }
        } else {
            let i = choose|i: int|
                0 <= i < shorter.len() && (#[trigger] shorter[i]).0 != "id"@ && !(schema.field(
                    shorter[i].0,
                ) matches Some(def) ==> validation::storage_error(
                    shorter[i].0,
                    def.field_type,
                    shorter[i].1,
                    refusals,
                ) is None);
            assert(entries[i] == shorter[i]);
        }
        if let Ok(learned) = validation::judged_fields(entries, schema, refusals) {
            let before = validation::judged_fields(shorter, schema, refusals)->Ok_0;
            assert forall|i: int|
                0 <= i < entries.len() && (#[trigger] entries[i]).0 != "id"@ && schema.field(
                    entries[i].0,
                ) is None implies learned.contains(
                (entries[i].0, validation::inferred_type(entries[i].1)),
            ) by {
                let fact = (entries[i].0, validation::inferred_type(entries[i].1));
                if i < n {
                    assert(shorter[i] == entries[i]);
                    assert(before.contains(fact));
                    let k = choose|k: int| 0 <= k < before.len() && before[k] == fact;
                    assert(learned[k] == fact);
                } else {
                    assert(learned[before.len() as int] == fact);
                }
            }
            assert forall|k: int| 0 <= k < learned.len() implies is_learned_of(
                #[trigger] learned[k],
                entries,
                schema,
            ) by {
                if k < before.len() {
                    assert(learned[k] == before[k]);
                    assert(is_learned_of(before[k], shorter, schema));
                    let i = choose|i: int|
                        0 <= i < shorter.len() && (#[trigger] shorter[i]).0 == before[k].0
                            && before[k].1 == validation::inferred_type(shorter[i].1);
                    assert(entries[i] == shorter[i]);
                } else {
                    assert(entries[n].0 == learned[k].0);
                }
            }
        }
    }
}

/// Whether a learned field is an undeclared one of a document, with the type that its value reads as.
pub open spec fn is_learned_of(
    learned: (Seq<char>, TantivyFieldType),
    entries: Seq<(Seq<char>, JsonV)>,
    schema: SchemaV,
) -> bool {
    &&& learned.0 != "id"@
    &&& schema.field(learned.0) is None
    &&& exists|i: int|
        0 <= i < entries.len() && (#[trigger] entries[i]).0 == learned.0 && learned.1
            == validation::inferred_type(entries[i].1)
}

/// A document is let in exactly where it is an object under an identifier, says no other identifier, under
/// its own name or another, and each of its declared fields can hold its value. What is let in is learned
/// of: the fields that are not declared yet, and a schema grows exactly where there are any.
pub proof fn law_a_document_is_let_in_where_every_field_holds_it(
    verdict: VerdictV,
    id: Seq<char>,
    doc: JsonV,
    schema: SchemaV,
    refusals: RefusalsV,
)
    requires
        validation::is_verdict(verdict, id, doc, schema, refusals),
    ensures
        verdict.error is None <==> (doc matches JsonV::Object(entries) && id.len() > 0 && (doc.get(
            "id"@,
        ) matches Some(own) ==> validation::is_identifier(own, id)) && !validation::has_disagreement(
            doc,
            schema,
            id,
        ) && all_held(entries, schema, refusals)),
        verdict.error is Some ==> !verdict.needs_evolution && verdict.new_fields.len() == 0,
        verdict.error is None ==> {
            let entries = doc->Object_0;
            &&& verdict.needs_evolution <==> verdict.new_fields.len() > 0
            &&& forall|i: int|
                0 <= i < entries.len() && (#[trigger] entries[i]).0 != "id"@ && schema.field(
                    entries[i].0,
                ) is None ==> verdict.new_fields.contains(
                    (entries[i].0, validation::inferred_type(entries[i].1)),
                )
            &&& forall|k: int|
                0 <= k < verdict.new_fields.len() ==> is_learned_of(
                    #[trigger] verdict.new_fields[k],
                    entries,
                    schema,
                )
        },
{
    if let JsonV::Object(entries) = doc {
        lemma_judged(entries, schema, refusals);
    }
}

/// A text is the identifier where it is the same text; a value that is neither a text nor a number never
/// is.
pub proof fn law_a_body_repeats_its_identifier(value: JsonV, id: Seq<char>)
    ensures
        value matches JsonV::Text(t) ==> (validation::is_identifier(value, id) <==> t == id),
        value is Bool || value is Null || value is Array || value is Object
            ==> !validation::is_identifier(value, id),
        value matches JsonV::Number(NumV::Unsigned(n)) ==> (validation::is_identifier(value, id)
            <==> json::number_reading(id) == Some(NumV::Unsigned(n))),
        value matches JsonV::Number(NumV::Negative(n)) ==> (validation::is_identifier(value, id)
            <==> json::number_reading(id) == Some(NumV::Negative(n))),
{
}

/// A document that gives its key another value under another name of the key is one that disagrees.
pub proof fn law_a_shadow_says_what_the_key_says(
    doc: JsonV,
    schema: SchemaV,
    id: Seq<char>,
    place: int,
    value: JsonV,
)
    requires
        0 <= place < schema.fields.len(),
        schema.fields[place].1.is_shadow,
        doc.get(schema.fields[place].0) == Some(value),
    ensures
        validation::is_identifier(value, id) || validation::has_disagreement(doc, schema, id),
{
    lemma_shadow_is_named(schema.fields, place);
    if !validation::is_identifier(value, id) {
        assert(schema.shadow_names().contains(schema.fields[place].0));
        assert(validation::disagrees_under(doc, schema.fields[place].0, id));
    }
}

/// The names of shadow fields are all listed.
proof fn lemma_shadow_is_named(
    fields: Seq<(Seq<char>, schema::FieldV)>,
    place: int,
)
    requires
        0 <= place < fields.len(),
        fields[place].1.is_shadow,
    ensures
        schema::shadow_names_of(fields).contains(fields[place].0),
    decreases fields.len(),
{
    let shorter = fields.drop_last();
    let names = schema::shadow_names_of(fields);
    if place < shorter.len() {
        lemma_shadow_is_named(shorter, place);
        let before = schema::shadow_names_of(shorter);
        let i = choose|i: int| 0 <= i < before.len() && before[i] == fields[place].0;
        assert(names[i] == fields[place].0);
    } else {
        assert(names[names.len() - 1] == fields[place].0);
    }
}

/// A new field is learned as what its value is.
pub proof fn law_a_value_is_learned_as_what_it_is(value: JsonV)
    ensures
        ({
            let learned = validation::inferred_type(value);
            match value {
                JsonV::Text(t) => {
                    &&& validation::date_secs(t) is Some ==> learned is Date
                    &&& validation::date_secs(t) is None && ip::is_address(t) ==> learned is Ip
                    &&& validation::date_secs(t) is None && !ip::is_address(t) ==> learned is Text
                },
                JsonV::Number(NumV::Unsigned(n)) => if n <= i64::MAX {
                    learned is I64
                } else {
                    learned is U64
                },
                JsonV::Number(NumV::Negative(_)) => learned is I64,
                JsonV::Number(NumV::Real(_)) => learned is F64,
                JsonV::Bool(_) => learned is Boolean,
                JsonV::Object(_) => learned is Json,
                JsonV::Array(_) => learned is Text,
                JsonV::Null => learned is Text,
            }
        }),
{
}

/// There is no first reason where there is none.
proof fn lemma_first_reason(reasons: Seq<Option<Seq<char>>>)
    ensures
        validation::first_reason(reasons) is None <==> forall|i: int|
            0 <= i < reasons.len() ==> (#[trigger] reasons[i]) is None,
    decreases reasons.len(),
{
    if reasons.len() > 0 {
        let rest = reasons.drop_last();
        lemma_first_reason(rest);
        assert(reasons[rest.len() as int] == reasons.last());
        if forall|i: int| 0 <= i < rest.len() ==> (#[trigger] rest[i]) is None {
            if reasons.last() is None {
                assert forall|i: int| 0 <= i < reasons.len() implies (#[trigger] reasons[i]) is None by {
                    if i < rest.len() {
                        assert(rest[i] == reasons[i]);
                    }
                }
            }
        } else {
            let i = choose|i: int| 0 <= i < rest.len() && !((#[trigger] rest[i]) is None);
            assert(reasons[i] == rest[i]);
        }
    }
}

/// A list of bytes is held where the store refuses none of them, and a single value never is.
pub proof fn law_bytes_are_held_where_the_store_takes_them(
    field: Seq<char>,
    items: Seq<JsonV>,
    refusals: RefusalsV,
)
    ensures
        validation::storage_error(
            field,
            TantivyFieldType::Bytes,
            JsonV::Array(items),
            refusals,
        ) is None <==> forall|i: int|
            0 <= i < items.len() ==> json::value_under(
                refusals.bytes,
                json::json_chars(#[trigger] items[i]),
            ) is None,
{
    let reasons = validation::item_errors(field, TantivyFieldType::Bytes, items, refusals);
    lemma_first_reason(reasons);
    assert forall|i: int| 0 <= i < items.len() implies ((#[trigger] reasons[i]) is None
        <==> json::value_under(refusals.bytes, json::json_chars(items[i])) is None) by {}
    if forall|i: int| 0 <= i < reasons.len() ==> (#[trigger] reasons[i]) is None {
        assert forall|i: int| 0 <= i < items.len() implies json::value_under(
            refusals.bytes,
            json::json_chars(#[trigger] items[i]),
        ) is None by {
            assert(reasons[i] is None);
        }
    }
}

} // verus!
