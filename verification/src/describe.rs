//! What an index is described as, and what changing it answers.

use vstd::prelude::*;
use vstd::string::*;
use crate::{errors, json, names, order, schema, search, text};
use crate::errors::{ErrorV, IoKind, OrchestratorError};
use crate::json::{Json, JsonV, entry};
use crate::names::list_names;
use crate::schema::{FieldDef, FieldV, IndexSchema, SchemaV, TantivyFieldType};
use crate::text::{holds_text, same_text, uuid_text};

verus! {

/// An entry that is there only where its text is.
pub open spec fn text_entry(key: Seq<char>, text: Option<Seq<char>>) -> Seq<(Seq<char>, JsonV)> {
    match text {
        Some(t) => seq![(key, JsonV::Text(t))],
        None => Seq::empty(),
    }
}

/// Adds an entry that is there only where its text is.
pub fn push_text(entries: &mut Vec<(String, Json)>, key: &str, text: &Option<String>)
    ensures
        json::entry_models(final(entries)@) == json::entry_models(old(entries)@) + text_entry(
            key@,
            errors::opt_text(*text),
        ),
{
    let ghost before = entries@;
    if let Some(t) = text {
        entries.push(entry(key, Json::text(t.as_str())));
        assert(json::entry_models(entries@) =~= json::entry_models(before) + text_entry(
            key@,
            errors::opt_text(*text),
        ));
    } else {
        assert(json::entry_models(entries@) =~= json::entry_models(before) + text_entry(
            key@,
            errors::opt_text(*text),
        ));
    }
}

// ---------------------------------------------------------------------------
// Fields
// ---------------------------------------------------------------------------

/// The names of the fields that a caller is shown: all but the one the engine keeps for itself.
pub open spec fn public_names(fields: Seq<(Seq<char>, FieldV)>) -> Seq<Seq<char>>
    decreases fields.len(),
{
    if fields.len() == 0 {
        Seq::empty()
    } else if fields.last().0 == "_seq"@ {
        public_names(fields.drop_last())
    } else {
        public_names(fields.drop_last()).push(fields.last().0)
    }
}

/// The names of the fields that a caller is shown are names of fields.
proof fn lemma_public_names_are_fields(fields: Seq<(Seq<char>, FieldV)>, name: Seq<char>)
    requires
        public_names(fields).contains(name),
    ensures
        name != "_seq"@,
        json::has_key(fields, name),
    decreases fields.len(),
{
    let shorter = fields.drop_last();
    if fields.last().0 != "_seq"@ && name == fields.last().0 {
        json::lemma_key_place(fields, name);
    } else {
        let i = choose|i: int| 0 <= i < public_names(fields).len() && public_names(fields)[i] == name;
        assert(public_names(shorter)[i] == name);
        lemma_public_names_are_fields(shorter, name);
        json::lemma_key_place(shorter, name);
        json::lemma_key_place(fields, name);
        let place = json::key_place(shorter, name);
        assert(fields[place].0 == name);
    }
}

/// The field names of an index, `id` first and the others in alphabetical order.
pub fn sorted_field_names(schema: &IndexSchema) -> (names: Vec<String>)
    ensures
        exists|order: Seq<int>| #[trigger]
            names::is_listing(text::texts(names@), public_names(schema@.fields), true, order),
{
    let mut names: Vec<String> = Vec::new();
    let ghost all = schema::field_models(schema.fields@);
    let mut i: usize = 0;
    assert(text::texts(names@) =~= public_names(all.take(0)));
    while i < schema.fields.len()
        invariant
            i <= schema.fields.len(),
            all == schema::field_models(schema.fields@),
            text::texts(names@) == public_names(all.take(i as int)),
        decreases schema.fields.len() - i,
    {
        proof {
            assert(all.take(i + 1).drop_last() =~= all.take(i as int));
            assert(all.take(i + 1).last() == all[i as int]);
        }
        if !same_text(schema.fields[i].0.as_str(), "_seq") {
            let ghost before = names@;
            names.push(schema.fields[i].0.clone());
            assert(text::texts(names@) =~= text::texts(before).push(all[i as int].0));
        }
        i += 1;
    }
    assert(all.take(schema.fields.len() as int) =~= all);
    let ghost unlisted = text::texts(names@);
    let listed: Vec<String> = list_names(names, true);
    proof {
        let order = choose|order: Seq<int>| #[trigger]
            names::is_listing(text::texts(listed@), unlisted, true, order);
        assert(names::is_listing(
            text::texts(listed@),
            public_names(schema@.fields),
            true,
            order,
        ));
    }
    listed
}

/// What a caller is told of a field.
pub open spec fn field_entry(
    name: Seq<char>,
    field: FieldV,
    document_key: Seq<char>,
    searchable: bool,
    sortable: bool,
) -> JsonV {
    JsonV::Object(
        seq![
            ("name"@, JsonV::Text(name)),
            ("type"@, JsonV::Text(schema::listed_type(field.field_type))),
            ("indexed"@, JsonV::Bool(field.indexed)),
            ("stored"@, JsonV::Bool(field.stored)),
            ("fast"@, JsonV::Bool(schema::declared_fast(field))),
            ("shadow"@, JsonV::Bool(field.is_shadow)),
            ("searchable"@, JsonV::Bool(field.is_shadow || searchable)),
            ("sortable"@, JsonV::Bool(sortable)),
        ] + text_entry(
            "returned_as"@,
            if name == "id"@ && document_key != "id"@ {
                Some(document_key)
            } else {
                None
            },
        ) + text_entry("description"@, field.description) + text_entry("tokenizer"@, field.tokenizer),
    )
}

/// A truth value.
fn truth(value: bool) -> (json: Json)
    ensures
        json@ == JsonV::Bool(value),
{
    broadcast use json::lemma_model_by_parts;

    Json::Bool(value)
}

/// Describes one field.
fn describe_field(
    name: &str,
    field: &FieldDef,
    document_key: &String,
    searchable: bool,
    sortable: bool,
) -> (described: Json)
    ensures
        described@ == field_entry(name@, field@, document_key@, searchable, sortable),
{
    let mut entries: Vec<(String, Json)> = vec![
        entry("name", Json::text(name)),
        entry("type", Json::text(field.field_type.name())),
        entry("indexed", truth(field.indexed)),
        entry("stored", truth(field.stored)),
        entry("fast", truth(field.is_fast())),
        entry("shadow", truth(field.is_shadow)),
        entry("searchable", truth(field.is_shadow || searchable)),
        entry("sortable", truth(sortable)),
    ];
    proof {
        assert(json::entry_models(entries@) =~= seq![
            ("name"@, JsonV::Text(name@)),
            ("type"@, JsonV::Text(schema::listed_type(field@.field_type))),
            ("indexed"@, JsonV::Bool(field@.indexed)),
            ("stored"@, JsonV::Bool(field@.stored)),
            ("fast"@, JsonV::Bool(schema::declared_fast(field@))),
            ("shadow"@, JsonV::Bool(field@.is_shadow)),
            ("searchable"@, JsonV::Bool(field@.is_shadow || searchable)),
            ("sortable"@, JsonV::Bool(sortable)),
        ]);
    }
    let returned_as: Option<String> = if same_text(name, "id") && !same_text(
        document_key.as_str(),
        "id",
    ) {
        Some(document_key.clone())
    } else {
        None
    };
    push_text(&mut entries, "returned_as", &returned_as);
    push_text(&mut entries, "description", &field.description);
    push_text(&mut entries, "tokenizer", &field.tokenizer);
    Json::object(entries)
}

/// Whether values describe the fields of an index, listed in this order.
pub open spec fn is_description(
    described: Seq<JsonV>,
    schema: SchemaV,
    searchable: Seq<Seq<char>>,
    sortable: Seq<Seq<char>>,
    listed: Seq<Seq<char>>,
    order: Seq<int>,
) -> bool {
    &&& names::is_listing(listed, public_names(schema.fields), true, order)
    &&& described == listed.map_values(
        |name: Seq<char>|
            field_entry(
                name,
                schema.field(name)->0,
                schema.document_key(),
                searchable.contains(name),
                sortable.contains(name),
            ),
    )
}

/// Describes every field of an index, in the one shape every caller renders.
///
/// `searchable` and `sortable` are what the built index can do, which its declarations alone do not
/// say: a field declared after the index was built is indexed and matches nothing, and one declared
/// fast may have no column behind it. A name for the document key is searchable whatever was built.
pub fn describe_fields(
    schema: &IndexSchema,
    searchable: &Vec<String>,
    sortable: &Vec<String>,
) -> (described: Vec<Json>)
    ensures
        exists|listed: Seq<Seq<char>>, order: Seq<int>| #[trigger]
            is_description(
                json::models(described@),
                schema@,
                text::texts(searchable@),
                text::texts(sortable@),
                listed,
                order,
            ),
{
    let document_key: String = schema.document_key_field();
    let names: Vec<String> = sorted_field_names(schema);
    let ghost listed = text::texts(names@);
    let ghost order = choose|order: Seq<int>| #[trigger]
        names::is_listing(listed, public_names(schema@.fields), true, order);
    let ghost wanted = listed.map_values(
        |name: Seq<char>|
            field_entry(
                name,
                schema@.field(name)->0,
                schema@.document_key(),
                text::texts(searchable@).contains(name),
                text::texts(sortable@).contains(name),
            ),
    );
    let mut described: Vec<Json> = Vec::new();
    let mut i: usize = 0;
    assert(json::models(described@) =~= wanted.take(0));
    while i < names.len()
        invariant
            i <= names.len(),
            listed == text::texts(names@),
            names::is_listing(listed, public_names(schema@.fields), true, order),
            document_key@ == schema@.document_key(),
            wanted == listed.map_values(
                |name: Seq<char>|
                    field_entry(
                        name,
                        schema@.field(name)->0,
                        schema@.document_key(),
                        text::texts(searchable@).contains(name),
                        text::texts(sortable@).contains(name),
                    ),
            ),
            json::models(described@) == wanted.take(i as int),
        decreases names.len() - i,
    {
        let name: &String = &names[i];
        proof {
            names::lemma_listing_holds_the_same(listed, public_names(schema@.fields), true, order);
            assert(listed[i as int] == name@);
            assert(listed.contains(name@));
            lemma_public_names_are_fields(schema@.fields, name@);
        }
        if let Some(field) = schema.field(name.as_str()) {
            let ghost before = described@;
            described.push(
                describe_field(
                    name.as_str(),
                    field,
                    &document_key,
                    holds_text(searchable, name.as_str()),
                    holds_text(sortable, name.as_str()),
                ),
            );
            assert(json::models(described@) =~= json::models(before).push(wanted[i as int]));
        }
        assert(wanted.take(i + 1) =~= wanted.take(i as int).push(wanted[i as int]));
        i += 1;
    }
    assert(wanted.take(names.len() as int) =~= wanted);
    assert(is_description(
        json::models(described@),
        schema@,
        text::texts(searchable@),
        text::texts(sortable@),
        listed,
        order,
    ));
    described
}

/// An index's fields are described in one way: the same schema and the same built index give the
/// same description.
pub proof fn law_a_description_is_one_description(
    schema: SchemaV,
    searchable: Seq<Seq<char>>,
    sortable: Seq<Seq<char>>,
    one: Seq<JsonV>,
    one_listed: Seq<Seq<char>>,
    one_order: Seq<int>,
    other: Seq<JsonV>,
    other_listed: Seq<Seq<char>>,
    other_order: Seq<int>,
)
    requires
        is_description(one, schema, searchable, sortable, one_listed, one_order),
        is_description(other, schema, searchable, sortable, other_listed, other_order),
    ensures
        one == other,
{
    names::law_a_listing_is_one_list(
        public_names(schema.fields),
        true,
        one_listed,
        one_order,
        other_listed,
        other_order,
    );
}

/// The field that the engine keeps for itself is never listed, and every other field is.
pub proof fn law_only_the_engines_own_field_is_hidden(
    fields: Seq<(Seq<char>, FieldV)>,
    listed: Seq<Seq<char>>,
    order: Seq<int>,
    name: Seq<char>,
)
    requires
        names::is_listing(listed, public_names(fields), true, order),
    ensures
        listed.contains(name) <==> name != "_seq"@ && json::has_key(fields, name),
{
    let shown = public_names(fields);
    if listed.contains(name) {
        let i = choose|i: int| 0 <= i < listed.len() && listed[i] == name;
        assert(shown.contains(name));
        lemma_public_names_are_fields(fields, name);
    }
    if name != "_seq"@ && json::has_key(fields, name) {
        lemma_fields_are_public_names(fields, name);
        let k = choose|k: int| 0 <= k < shown.len() && shown[k] == name;
        order::lemma_names_every_place(order, shown.len());
        assert(order.contains(k));
        let place = choose|place: int| 0 <= place < order.len() && order[place] == k;
        assert(listed[place] == name);
    }
}

/// A field that is not the engine's own is among those a caller is shown.
proof fn lemma_fields_are_public_names(fields: Seq<(Seq<char>, FieldV)>, name: Seq<char>)
    requires
        name != "_seq"@,
        json::has_key(fields, name),
    ensures
        public_names(fields).contains(name),
    decreases fields.len(),
{
    json::lemma_key_place(fields, name);
    let shorter = fields.drop_last();
    let shown = public_names(fields);
    if fields.last().0 == name {
        assert(shown[shown.len() - 1] == name);
    } else {
        json::lemma_key_place(shorter, name);
        assert(shorter[json::key_place(fields, name)].0 == name);
        lemma_fields_are_public_names(shorter, name);
        let i = choose|i: int|
            0 <= i < public_names(shorter).len() && public_names(shorter)[i] == name;
        assert(shown[i] == name);
    }
}

/// The schema of an index as a caller reads it back, with these descriptions of its fields.
pub open spec fn schema_body(
    index: Seq<char>,
    description: Option<Seq<char>>,
    fields: Seq<JsonV>,
) -> JsonV {
    JsonV::Object(
        seq![("name"@, JsonV::Text(index))] + text_entry("description"@, description) + seq![
            ("field_count"@, search::count_value(fields.len())),
            ("fields"@, JsonV::Array(fields)),
        ],
    )
}

/// Adds how many fields an index has, and what they are.
fn push_fields(entries: &mut Vec<(String, Json)>, fields: Vec<Json>)
    ensures
        json::entry_models(final(entries)@) == json::entry_models(old(entries)@) + seq![
            ("field_count"@, search::count_value(json::models(fields@).len())),
            ("fields"@, JsonV::Array(json::models(fields@))),
        ],
{
    let ghost before = entries@;
    let ghost listed = json::models(fields@);
    let count: usize = fields.len();
    entries.push(entry("field_count", Json::count(count)));
    entries.push(entry("fields", Json::list(fields)));
    assert(json::entry_models(entries@) =~= json::entry_models(before) + seq![
        ("field_count"@, search::count_value(listed.len())),
        ("fields"@, JsonV::Array(listed)),
    ]);
}

/// The schema of an index as a caller reads it back.
///
/// Everything the schema carries belongs here: the answer is edited and written back whole, so a
/// property left out here would be erased by an unrelated edit.
pub fn schema_response(
    index: &str,
    schema: &IndexSchema,
    searchable: &Vec<String>,
    sortable: &Vec<String>,
) -> (response: Json)
    ensures
        exists|fields: Seq<JsonV>, listed: Seq<Seq<char>>, order: Seq<int>| #[trigger]
            is_description(
                fields,
                schema@,
                text::texts(searchable@),
                text::texts(sortable@),
                listed,
                order,
            ) && response@ == schema_body(index@, schema@.description, fields),
{
    let mut entries: Vec<(String, Json)> = vec![entry("name", Json::text(index))];
    assert(json::entry_models(entries@) =~= seq![("name"@, JsonV::Text(index@))]);
    push_text(&mut entries, "description", &schema.description);
    let fields: Vec<Json> = describe_fields(schema, searchable, sortable);
    push_fields(&mut entries, fields);
    Json::object(entries)
}

// ---------------------------------------------------------------------------
// Creating and reading a configuration
// ---------------------------------------------------------------------------

/// A schema with the document key declared in it.
pub open spec fn with_document_key(schema: SchemaV) -> SchemaV {
    if schema.field("id"@) is Some {
        schema
    } else {
        SchemaV {
            fields: json::with_entry(
                schema.fields,
                "id"@,
                schema::plain_field("id"@, TantivyFieldType::Text),
            ),
            ..schema
        }
    }
}

/// Declares the document key, where a schema does not, so that it is seen.
pub fn declare_document_key(schema: &mut IndexSchema)
    ensures
        final(schema)@ == with_document_key(old(schema)@),
{
    if schema.field("id").is_none() {
        schema.put_field("id", FieldDef::new(String::from_str("id"), TantivyFieldType::Text));
    }
}

/// What creating an index answers.
pub open spec fn created_body(index: Seq<char>, names: Seq<Seq<char>>) -> JsonV {
    JsonV::Object(
        seq![
            ("acknowledged"@, JsonV::Bool(true)),
            ("index"@, JsonV::Text(index)),
            ("field_names"@, errors::text_array(names)),
        ],
    )
}

/// What creating an index answers.
pub fn create_config_response(index: &str, schema: &IndexSchema) -> (response: Json)
    ensures
        exists|names: Seq<Seq<char>>, order: Seq<int>| #[trigger]
            names::is_listing(names, public_names(schema@.fields), true, order) && response@
                == created_body(index@, names),
{
    let names: Vec<String> = sorted_field_names(schema);
    let ghost listed = text::texts(names@);
    let parts: Vec<(String, Json)> = vec![
        entry("acknowledged", truth(true)),
        entry("index", Json::text(index)),
        entry("field_names", Json::text_list(&names)),
    ];
    assert(json::entry_models(parts@) =~= seq![
        ("acknowledged"@, JsonV::Bool(true)),
        ("index"@, JsonV::Text(index@)),
        ("field_names"@, errors::text_array(listed)),
    ]);
    Json::object(parts)
}

/// Why the schema of an index cannot be read on a node that holds no shard.
pub fn no_shards_for_schema(index: &str) -> (error: OrchestratorError)
    ensures
        error@ == ErrorV::Io(
            IoKind::NotFound,
            "No shards initialized on this node. Schema for index '"@ + index@
                + "' may exist but cannot be retrieved until shards are created."@,
        ),
{
    let mut message: String = String::from_str(
        "No shards initialized on this node. Schema for index '",
    );
    message.append(index);
    message.append("' may exist but cannot be retrieved until shards are created.");
    OrchestratorError::io(IoKind::NotFound, message)
}

/// Why the schema of an index cannot be read where no shard holds it.
pub fn schema_not_found(index: &str) -> (error: OrchestratorError)
    ensures
        error@ == ErrorV::Io(
            IoKind::NotFound,
            "Schema for index '"@ + index@ + "' not found"@,
        ),
{
    let mut message: String = String::from_str("Schema for index '");
    message.append(index);
    message.append("' not found");
    OrchestratorError::io(IoKind::NotFound, message)
}

/// Who a node is and how many shards it holds.
pub open spec fn identity_body(node_id: u128, node_name: Seq<char>, shards: nat) -> JsonV {
    JsonV::Object(
        seq![
            ("node_id"@, JsonV::Text(text::uuid_chars(node_id))),
            ("node_name"@, JsonV::Text(node_name)),
            ("total_shards"@, search::count_value(shards)),
        ],
    )
}

/// Who a node is and how many shards it holds.
pub fn identity_response(node_id: u128, node_name: &str, shards: usize) -> (response: Json)
    ensures
        response@ == identity_body(node_id, node_name@, shards as nat),
{
    let parts: Vec<(String, Json)> = vec![
        entry("node_id", Json::text(uuid_text(node_id).as_str())),
        entry("node_name", Json::text(node_name)),
        entry("total_shards", Json::count(shards)),
    ];
    assert(json::entry_models(parts@) =~= seq![
        ("node_id"@, JsonV::Text(text::uuid_chars(node_id))),
        ("node_name"@, JsonV::Text(node_name@)),
        ("total_shards"@, search::count_value(shards as nat)),
    ]);
    Json::object(parts)
}

// ---------------------------------------------------------------------------
// Validating a query
// ---------------------------------------------------------------------------

/// What the engine makes of a query.
#[derive(Debug, PartialEq)]
pub struct QueryVerdict {
    /// Whether the engine found nothing wrong.
    pub valid: bool,
    pub normalized_query: String,
    pub syntax_errors: Vec<String>,
    pub discarded: Vec<String>,
}

/// What is said where there is no built index to check a query against.
pub const UNCHECKED_QUERY_NOTE: &'static str =
    "This index has no documents yet, so the query could not be checked against it. Field names are resolved against a built index, which does not exist until the first write.";

/// What validating a query answers.
pub open spec fn validation_body(
    index: Seq<char>,
    query: Seq<char>,
    engine_query: Seq<char>,
    verdict: Option<QueryVerdict>,
) -> JsonV {
    match verdict {
        Some(v) => JsonV::Object(
            seq![
                ("index"@, JsonV::Text(index)),
                ("query"@, JsonV::Text(query)),
                ("valid"@, JsonV::Bool(v.valid)),
                ("normalized_query"@, JsonV::Text(v.normalized_query@)),
                ("syntax_errors"@, errors::text_array(text::texts(v.syntax_errors@))),
                ("discarded"@, errors::text_array(text::texts(v.discarded@))),
            ],
        ),
        None => JsonV::Object(
            seq![
                ("index"@, JsonV::Text(index)),
                ("query"@, JsonV::Text(query)),
                ("valid"@, JsonV::Null),
                ("normalized_query"@, JsonV::Text(engine_query)),
                ("syntax_errors"@, errors::text_array(Seq::empty())),
                ("discarded"@, errors::text_array(Seq::empty())),
                ("note"@, JsonV::Text(UNCHECKED_QUERY_NOTE@)),
            ],
        ),
    }
}

/// What validating a query answers, from the first verdict that some shard gave.
///
/// Where no shard has a built index there is nothing to resolve field names against, and saying so
/// beats a verdict that was never checked.
pub fn validate_query_response(
    index: &str,
    query: &str,
    engine_query: &str,
    verdict: &Option<QueryVerdict>,
) -> (response: Json)
    ensures
        response@ == validation_body(index@, query@, engine_query@, *verdict),
{
    match verdict {
        Some(v) => {
            let parts: Vec<(String, Json)> = vec![
                entry("index", Json::text(index)),
                entry("query", Json::text(query)),
                entry("valid", truth(v.valid)),
                entry("normalized_query", Json::text(v.normalized_query.as_str())),
                entry("syntax_errors", Json::text_list(&v.syntax_errors)),
                entry("discarded", Json::text_list(&v.discarded)),
            ];
            assert(json::entry_models(parts@) =~= seq![
                ("index"@, JsonV::Text(index@)),
                ("query"@, JsonV::Text(query@)),
                ("valid"@, JsonV::Bool(v.valid)),
                ("normalized_query"@, JsonV::Text(v.normalized_query@)),
                ("syntax_errors"@, errors::text_array(text::texts(v.syntax_errors@))),
                ("discarded"@, errors::text_array(text::texts(v.discarded@))),
            ]);
            Json::object(parts)
        },
        None => {
            let none: Vec<String> = Vec::new();
            let null: Json = Json::Null;
            assert(text::texts(none@) =~= Seq::empty());
            proof {
                json::lemma_model_by_parts(null);
            }
            let parts: Vec<(String, Json)> = vec![
                entry("index", Json::text(index)),
                entry("query", Json::text(query)),
                entry("valid", null),
                entry("normalized_query", Json::text(engine_query)),
                entry("syntax_errors", Json::text_list(&none)),
                entry("discarded", Json::text_list(&none)),
                entry("note", Json::text(UNCHECKED_QUERY_NOTE)),
            ];
            assert(json::entry_models(parts@) =~= seq![
                ("index"@, JsonV::Text(index@)),
                ("query"@, JsonV::Text(query@)),
                ("valid"@, JsonV::Null),
                ("normalized_query"@, JsonV::Text(engine_query@)),
                ("syntax_errors"@, errors::text_array(Seq::empty())),
                ("discarded"@, errors::text_array(Seq::empty())),
                ("note"@, JsonV::Text(UNCHECKED_QUERY_NOTE@)),
            ]);
            Json::object(parts)
        },
    }
}

} // verus!
