//! What an index is, as the discovery tools describe it.
//!
//! Every surface describes a field in one shape. [`FieldInfo`] is that shape as everything behind it
//! reads it.

use vstd::prelude::*;
use vstd::string::*;
use crate::{broadcast, errors, json, schema_update, search, text};
use crate::broadcast::text_at;
use crate::json::{Json, JsonV, entry};
use crate::schema_update::merge_names;
use crate::text::{contains_part, same_text};

verus! {

// ---------------------------------------------------------------------------
// Fields
// ---------------------------------------------------------------------------

/// One field, as the discovery tools describe it.
#[derive(Debug, PartialEq, Eq)]
pub struct FieldInfo {
    pub name: String,
    pub field_type: String,
    pub indexed: bool,
    pub fast: bool,
    pub is_shadow: bool,
    /// Whether a query can reach the field now, where `indexed` is what the schema declares.
    pub searchable: bool,
    /// Whether a sort on the field is exact, where `fast` is what the schema declares.
    pub sortable: bool,
    /// What the field records, if anyone wrote it down.
    pub description: Option<String>,
    /// The name that a hit carries the field's value under, when it is not the field's own name.
    pub returned_as: Option<String>,
}

/// One field, as a value of the model.
#[verifier::ext_equal]
pub struct FieldInfoV {
    pub name: Seq<char>,
    pub field_type: Seq<char>,
    pub indexed: bool,
    pub fast: bool,
    pub is_shadow: bool,
    pub searchable: bool,
    pub sortable: bool,
    pub description: Option<Seq<char>>,
    pub returned_as: Option<Seq<char>>,
}

impl View for FieldInfo {
    type V = FieldInfoV;

    open spec fn view(&self) -> FieldInfoV {
        FieldInfoV {
            name: self.name@,
            field_type: self.field_type@,
            indexed: self.indexed,
            fast: self.fast,
            is_shadow: self.is_shadow,
            searchable: self.searchable,
            sortable: self.sortable,
            description: errors::opt_text(self.description),
            returned_as: errors::opt_text(self.returned_as),
        }
    }
}

/// Several fields at once.
pub open spec fn info_models(infos: Seq<FieldInfo>) -> Seq<FieldInfoV> {
    infos.map_values(|info: FieldInfo| info@)
}

/// Whether a query that names a field can match anything: the search index has it, or it names the
/// identifier, which is answered without the search index.
pub open spec fn queryable(info: FieldInfoV) -> bool {
    info.searchable || info.is_shadow
}

impl FieldInfo {
    /// Whether a query that names this field can match anything.
    pub fn is_queryable(&self) -> (holds: bool)
        ensures
            holds == queryable(self@),
    {
        self.searchable || self.is_shadow
    }
}

/// The text under a key of a value, or a default.
pub open spec fn text_or(value: JsonV, key: Seq<char>, default: Seq<char>) -> Seq<char> {
    match broadcast::text_of_value(value.get(key)) {
        Some(text) => text,
        None => default,
    }
}

/// The truth value under a key of a value, or a default.
pub open spec fn bool_or(value: JsonV, key: Seq<char>, default: bool) -> bool {
    match value.get(key) {
        Some(found) => match found.as_bool() {
            Some(truth) => truth,
            None => default,
        },
        None => default,
    }
}

/// The text under a key of a value, or a default.
fn read_text(value: &Json, key: &str, default: &str) -> (text: String)
    ensures
        text@ == text_or(value@, key@, default@),
{
    match text_at(value, key) {
        Some(text) => text.clone(),
        None => String::from_str(default),
    }
}

/// The truth value under a key of a value, or a default.
fn read_bool(value: &Json, key: &str, default: bool) -> (truth: bool)
    ensures
        truth == bool_or(value@, key@, default),
{
    match value.get(key) {
        Some(found) => match found.as_bool() {
            Some(truth) => truth,
            None => default,
        },
        None => default,
    }
}

/// The text under a key of a value.
fn read_opt_text(value: &Json, key: &str) -> (text: Option<String>)
    ensures
        errors::opt_text(text) == broadcast::text_of_value(value@.get(key@)),
{
    match text_at(value, key) {
        Some(text) => Some(text.clone()),
        None => None,
    }
}

/// The field that an entry of a description stands for.
pub open spec fn info_of(def: JsonV) -> FieldInfoV {
    FieldInfoV {
        name: text_or(def, "name"@, ""@),
        field_type: text_or(def, "type"@, "text"@),
        indexed: bool_or(def, "indexed"@, true),
        fast: bool_or(def, "fast"@, false),
        is_shadow: bool_or(def, "shadow"@, false),
        searchable: bool_or(def, "searchable"@, true),
        sortable: bool_or(def, "sortable"@, false),
        description: broadcast::text_of_value(def.get("description"@)),
        returned_as: broadcast::text_of_value(def.get("returned_as"@)),
    }
}

/// The fields that some entries stand for: those with a name.
pub open spec fn infos_of(defs: Seq<JsonV>) -> Seq<FieldInfoV>
    decreases defs.len(),
{
    if defs.len() == 0 {
        Seq::empty()
    } else {
        let before = infos_of(defs.drop_last());
        if info_of(defs.last()).name.len() == 0 {
            before
        } else {
            before.push(info_of(defs.last()))
        }
    }
}

/// The fields of a description.
pub open spec fn field_infos(description: JsonV) -> Seq<FieldInfoV> {
    match broadcast::items_of(description.get("fields"@)) {
        Some(defs) => infos_of(defs),
        None => Seq::empty(),
    }
}

/// Reads the fields of a description.
pub fn extract_field_info(value: &Json) -> (infos: Vec<FieldInfo>)
    ensures
        info_models(infos@) == field_infos(value@),
{
    let mut infos: Vec<FieldInfo> = Vec::new();
    let defs: &Vec<Json> = match value.get("fields") {
        Some(fields) => match fields.as_array() {
            Some(defs) => defs,
            None => {
                assert(info_models(infos@) =~= field_infos(value@));
                return infos;
            },
        },
        None => {
            assert(info_models(infos@) =~= field_infos(value@));
            return infos;
        },
    };
    let ghost all = json::models(defs@);
    let mut i: usize = 0;
    assert(info_models(infos@) =~= infos_of(all.take(0)));
    while i < defs.len()
        invariant
            i <= defs.len(),
            all == json::models(defs@),
            info_models(infos@) == infos_of(all.take(i as int)),
        decreases defs.len() - i,
    {
        let def: &Json = &defs[i];
        proof {
            assert(all.take(i + 1).drop_last() =~= all.take(i as int));
            assert(all.take(i + 1).last() == def@);
            reveal_strlit("");
        }
        let info = FieldInfo {
            name: read_text(def, "name", ""),
            field_type: read_text(def, "type", "text"),
            indexed: read_bool(def, "indexed", true),
            fast: read_bool(def, "fast", false),
            is_shadow: read_bool(def, "shadow", false),
            searchable: read_bool(def, "searchable", true),
            sortable: read_bool(def, "sortable", false),
            description: read_opt_text(def, "description"),
            returned_as: read_opt_text(def, "returned_as"),
        };
        assert(info@ =~= info_of(def@));
        if !same_text(info.name.as_str(), "") {
            let ghost before = infos@;
            assert(info@.name.len() != 0) by {
                if info@.name.len() == 0 {
                    assert(info@.name =~= ""@);
                }
            }
            infos.push(info);
            assert(info_models(infos@) =~= info_models(before).push(info_of(def@)));
        } else {
            assert(info@.name.len() == 0);
        }
        i += 1;
    }
    assert(all.take(defs.len() as int) =~= all);
    infos
}

/// The names of fields.
pub open spec fn info_names(infos: Seq<FieldInfoV>) -> Seq<Seq<char>> {
    infos.map_values(|info: FieldInfoV| info.name)
}

/// The names of fields.
pub fn names_of_infos(infos: &Vec<FieldInfo>) -> (names: Vec<String>)
    ensures
        text::texts(names@) == info_names(info_models(infos@)),
{
    let ghost all = info_names(info_models(infos@));
    let mut names: Vec<String> = Vec::new();
    let mut i: usize = 0;
    assert(text::texts(names@) =~= all.take(0));
    while i < infos.len()
        invariant
            i <= infos.len(),
            all == info_names(info_models(infos@)),
            text::texts(names@) == all.take(i as int),
        decreases infos.len() - i,
    {
        let ghost before = names@;
        names.push(infos[i].name.clone());
        assert(text::texts(names@) =~= text::texts(before).push(all[i as int]));
        i += 1;
        assert(text::texts(names@) =~= all.take(i as int));
    }
    assert(all.take(infos.len() as int) =~= all);
    names
}

/// Reads the names of the fields of a description.
pub fn extract_field_names(value: &Json) -> (names: Vec<String>)
    ensures
        text::texts(names@) == info_names(field_infos(value@)),
{
    let infos: Vec<FieldInfo> = extract_field_info(value);
    names_of_infos(&infos)
}

// ---------------------------------------------------------------------------
// Hints
// ---------------------------------------------------------------------------

/// What the query syntax says of fields.
#[derive(Debug, PartialEq, Eq)]
pub struct SyntaxHints {
    /// What the name of the identifier supports, however the field is declared.
    pub shadow_field: String,
    /// What a field of each type supports.
    pub by_type: Vec<(String, String)>,
    /// What a field of any other type supports.
    pub other: String,
}

/// What the query syntax says of fields, as a value of the model.
pub struct HintsV {
    pub shadow_field: Seq<char>,
    pub by_type: Seq<(Seq<char>, Seq<char>)>,
    pub other: Seq<char>,
}

impl View for SyntaxHints {
    type V = HintsV;

    open spec fn view(&self) -> HintsV {
        HintsV {
            shadow_field: self.shadow_field@,
            by_type: self.by_type@.map_values(|pair: (String, String)| (pair.0@, pair.1@)),
            other: self.other@,
        }
    }
}

/// What stands beside a type from a place of a list on, or a default.
pub open spec fn hint_from(
    by_type: Seq<(Seq<char>, Seq<char>)>,
    field_type: Seq<char>,
    other: Seq<char>,
    from: int,
) -> Seq<char>
    decreases by_type.len() - from,
{
    if from < 0 || from >= by_type.len() {
        other
    } else if by_type[from].0 == field_type {
        by_type[from].1
    } else {
        hint_from(by_type, field_type, other, from + 1)
    }
}

/// What a field of a type supports.
pub open spec fn type_hint(hints: HintsV, field_type: Seq<char>) -> Seq<char> {
    hint_from(hints.by_type, field_type, hints.other, 0)
}

/// What a field of a type supports.
pub fn field_type_query_hint(hints: &SyntaxHints, field_type: &str) -> (hint: String)
    ensures
        hint@ == type_hint(hints@, field_type@),
{
    let mut i: usize = 0;
    while i < hints.by_type.len()
        invariant
            i <= hints.by_type.len(),
            type_hint(hints@, field_type@) == hint_from(
                hints@.by_type,
                field_type@,
                hints@.other,
                i as int,
            ),
        decreases hints.by_type.len() - i,
    {
        if same_text(hints.by_type[i].0.as_str(), field_type) {
            return hints.by_type[i].1.clone();
        }
        i += 1;
    }
    hints.other.clone()
}

/// What a field supports: the name of the identifier follows its own rule, any other field its type.
pub open spec fn field_hint(hints: HintsV, info: FieldInfoV) -> Seq<char> {
    if info.is_shadow {
        hints.shadow_field
    } else {
        type_hint(hints, info.field_type)
    }
}

/// What a field supports.
pub fn field_query_hint(hints: &SyntaxHints, info: &FieldInfo) -> (hint: String)
    ensures
        hint@ == field_hint(hints@, info@),
{
    if info.is_shadow {
        hints.shadow_field.clone()
    } else {
        field_type_query_hint(hints, info.field_type.as_str())
    }
}

// ---------------------------------------------------------------------------
// Entries
// ---------------------------------------------------------------------------

/// The types of fields.
pub open spec fn info_types(infos: Seq<FieldInfoV>) -> Seq<Seq<char>> {
    infos.map_values(|info: FieldInfoV| info.field_type)
}

/// What one type supports, as it is shown.
pub open spec fn type_hint_value(hints: HintsV, field_type: Seq<char>) -> JsonV {
    JsonV::Object(
        seq![
            ("type"@, JsonV::Text(field_type)),
            ("query_hint"@, JsonV::Text(type_hint(hints, field_type))),
        ],
    )
}

/// What some types support, as it is shown.
pub open spec fn type_hint_values(hints: HintsV, types: Seq<Seq<char>>) -> Seq<JsonV> {
    types.map_values(|field_type: Seq<char>| type_hint_value(hints, field_type))
}

/// Whether an entry is an index's description with one hint for each type that its fields have, in
/// alphabetical order of the types.
pub open spec fn is_enriched(
    enriched: JsonV,
    description: JsonV,
    hints: HintsV,
    types: Seq<Seq<char>>,
) -> bool {
    &&& text::strictly_alphabetical(types)
    &&& forall|t: Seq<char>| #[trigger]
        types.contains(t) <==> info_types(field_infos(description)).contains(t)
    &&& enriched == description.with("query_hints"@, JsonV::Array(type_hint_values(hints, types)))
}

/// Adds to an index's description one hint for each type that its fields have.
pub fn enrich_index_entry(entry: Json, hints: &SyntaxHints) -> (enriched: Json)
    ensures
        exists|types: Seq<Seq<char>>| #[trigger] is_enriched(enriched@, entry@, hints@, types),
{
    let ghost given = entry@;
    let mut entry: Json = entry;
    let infos: Vec<FieldInfo> = extract_field_info(&entry);
    let ghost all = info_types(info_models(infos@));
    let mut types: Vec<String> = Vec::new();
    let mut i: usize = 0;
    assert(text::texts(types@) =~= all.take(0));
    while i < infos.len()
        invariant
            i <= infos.len(),
            all == info_types(info_models(infos@)),
            text::texts(types@) == all.take(i as int),
        decreases infos.len() - i,
    {
        let ghost before = types@;
        types.push(infos[i].field_type.clone());
        assert(text::texts(types@) =~= text::texts(before).push(all[i as int]));
        i += 1;
        assert(text::texts(types@) =~= all.take(i as int));
    }
    assert(all.take(infos.len() as int) =~= all);
    let mut seen: Vec<String> = Vec::new();
    assert(text::texts(seen@).no_duplicates());
    merge_names(&mut seen, &types);
    let ghost kinds = text::texts(seen@);
    let ghost shown = type_hint_values(hints@, kinds);
    let mut query_hints: Vec<Json> = Vec::new();
    let mut k: usize = 0;
    assert(json::models(query_hints@) =~= shown.take(0));
    while k < seen.len()
        invariant
            k <= seen.len(),
            kinds == text::texts(seen@),
            shown == type_hint_values(hints@, kinds),
            json::models(query_hints@) == shown.take(k as int),
        decreases seen.len() - k,
    {
        let hint: String = field_type_query_hint(hints, seen[k].as_str());
        let parts: Vec<(String, Json)> = vec![
            entry_of("type", seen[k].as_str()),
            entry_of("query_hint", hint.as_str()),
        ];
        assert(json::entry_models(parts@) =~= seq![
            ("type"@, JsonV::Text(kinds[k as int])),
            ("query_hint"@, JsonV::Text(type_hint(hints@, kinds[k as int]))),
        ]);
        let ghost before = query_hints@;
        query_hints.push(Json::object(parts));
        assert(json::models(query_hints@) =~= json::models(before).push(shown[k as int]));
        k += 1;
        assert(json::models(query_hints@) =~= shown.take(k as int));
    }
    assert(shown.take(seen.len() as int) =~= shown);
    entry.put("query_hints", Json::list(query_hints));
    assert(is_enriched(entry@, given, hints@, kinds));
    entry
}

/// A text under a key.
pub fn entry_of(key: &str, text: &str) -> (pair: (String, Json))
    ensures
        pair.0@ == key@,
        pair.1@ == JsonV::Text(text@),
{
    entry(key, Json::text(text))
}

/// An index's description has one enriched form.
pub proof fn law_an_entry_is_enriched_one_way(
    description: JsonV,
    hints: HintsV,
    one: JsonV,
    one_types: Seq<Seq<char>>,
    other: JsonV,
    other_types: Seq<Seq<char>>,
)
    requires
        is_enriched(one, description, hints, one_types),
        is_enriched(other, description, hints, other_types),
    ensures
        one == other,
{
    schema_update::lemma_alphabetical_is_one_list(one_types, other_types);
}

/// What is held under a key of a value, or null.
pub open spec fn held_or_null(value: JsonV, key: Seq<char>) -> JsonV {
    match value.get(key) {
        Some(found) => found,
        None => JsonV::Null,
    }
}

/// What is held under a key of a value, or null.
pub fn copy_or_null(value: &Json, key: &str) -> (copy: Json)
    ensures
        copy@ == held_or_null(value@, key@),
{
    match value.get(key) {
        Some(found) => found.clone(),
        None => Json::Null,
    }
}

/// One index as the catalogue lists it: enough to choose between indexes, and no more. The names go
/// under `field_names`, because `fields` names objects everywhere else.
pub open spec fn catalogued(description: JsonV) -> JsonV {
    let names = info_names(field_infos(description));
    let listed = JsonV::Object(
        seq![
            ("index"@, held_or_null(description, "name"@)),
            ("document_count"@, held_or_null(description, "document_count"@)),
            ("field_count"@, search::count_value(names.len())),
            ("field_names"@, errors::text_array(names)),
        ],
    );
    match description.get("description"@) {
        Some(text) => listed.with("description"@, text),
        None => listed,
    }
}

/// Lists one index as the catalogue does.
pub fn catalogue_entry(description: &Json) -> (listed: Json)
    ensures
        listed@ == catalogued(description@),
{
    let names: Vec<String> = extract_field_names(description);
    assert(text::texts(names@).len() == names@.len());
    let parts: Vec<(String, Json)> = vec![
        entry("index", copy_or_null(description, "name")),
        entry("document_count", copy_or_null(description, "document_count")),
        entry("field_count", Json::count(names.len())),
        entry("field_names", Json::text_list(&names)),
    ];
    assert(json::entry_models(parts@) =~= seq![
        ("index"@, held_or_null(description@, "name"@)),
        ("document_count"@, held_or_null(description@, "document_count"@)),
        ("field_count"@, search::count_value(text::texts(names@).len())),
        ("field_names"@, errors::text_array(text::texts(names@))),
    ]);
    let mut listed: Json = Json::object(parts);
    if let Some(text) = description.get("description") {
        listed.put("description", text.clone());
    }
    listed
}

// ---------------------------------------------------------------------------
// Absent indexes
// ---------------------------------------------------------------------------

/// What is said of an index that is not there.
pub open spec fn not_found_text(index: Seq<char>) -> Seq<char> {
    "Index '"@ + index + "' not found"@
}

/// What is said of an index that is not there.
pub fn not_found_message(index: &str) -> (message: String)
    ensures
        message@ == not_found_text(index@),
{
    let mut message: String = String::from_str("Index '");
    message.append(index);
    message.append("' not found");
    message
}

/// Why an index is absent, by how reading its schema failed. Any failure but that it was not found is
/// no evidence that the index is absent.
pub open spec fn absence(index: Seq<char>, failure: Option<Seq<char>>) -> Option<Seq<char>> {
    match failure {
        Some(message) => if text::holds_part(message, "not found"@) {
            Some(not_found_text(index))
        } else {
            None
        },
        None => None,
    }
}

/// Why an index is absent, asked of a search that returned nothing: such a search looks the same
/// whether the index is not there or nothing matched.
pub fn absent_index_reason(index: &str, failure: Option<&str>) -> (reason: Option<String>)
    ensures
        errors::opt_text(reason) == absence(
            index@,
            match failure {
                Some(message) => Some(message@),
                None => None,
            },
        ),
{
    match failure {
        Some(message) => if contains_part(message, "not found") {
            Some(not_found_message(index))
        } else {
            None
        },
        None => None,
    }
}

} // verus!
