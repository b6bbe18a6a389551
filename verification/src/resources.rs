//! The `cameodb://` resource URIs, which are the browsing form of the catalogue.

use vstd::prelude::*;
use vstd::string::*;
use crate::{broadcast, catalog, discovery, field_info, json, text};
use crate::broadcast::text_at;
use crate::catalog::TotalsV;
use crate::field_info::{HintsV, copy_or_null, entry_of};
use crate::json::{Json, JsonV};
use crate::text::{chars_of, same_text, starts_with_part, text_of};

verus! {

// ---------------------------------------------------------------------------
// Listing
// ---------------------------------------------------------------------------

/// The URI of the catalogue.
pub const CATALOGUE_URI: &'static str = "cameodb://indexes";

/// What the URI of an index starts with.
pub const INDEX_URI_START: &'static str = "cameodb://indexes/";

/// What the URI of an index's schema ends with.
pub const SCHEMA_END: &'static str = "/schema";

/// What the URI of an index's statistics ends with.
pub const STATS_END: &'static str = "/stats";

/// A resource, as it is listed.
pub open spec fn descriptor(uri: Seq<char>, name: Seq<char>, description: Seq<char>) -> JsonV {
    JsonV::Object(
        seq![
            ("uri"@, JsonV::Text(uri)),
            ("name"@, JsonV::Text(name)),
            ("description"@, JsonV::Text(description)),
            ("mimeType"@, JsonV::Text("application/json"@)),
        ],
    )
}

/// Lists a resource.
pub fn resource_descriptor(uri: &str, name: &str, description: &str) -> (listed: Json)
    ensures
        listed@ == descriptor(uri@, name@, description@),
{
    let parts: Vec<(String, Json)> = vec![
        entry_of("uri", uri),
        entry_of("name", name),
        entry_of("description", description),
        entry_of("mimeType", "application/json"),
    ];
    assert(json::entry_models(parts@) =~= seq![
        ("uri"@, JsonV::Text(uri@)),
        ("name"@, JsonV::Text(name@)),
        ("description"@, JsonV::Text(description@)),
        ("mimeType"@, JsonV::Text("application/json"@)),
    ]);
    Json::object(parts)
}

/// The catalogue, as it is listed.
pub open spec fn catalogue_resource() -> JsonV {
    descriptor(
        CATALOGUE_URI@,
        "CameoDB Index Catalog"@,
        "Every CameoDB index, with its description, document count and field names. Per-index schema is at cameodb://indexes/{index}."@,
    )
}

/// The three resources of an index, as they are listed.
pub open spec fn index_resources(index: Seq<char>) -> Seq<JsonV> {
    seq![
        descriptor(
            INDEX_URI_START@ + index,
            "Index "@ + index,
            "Metadata resource for CameoDB index '"@ + index + "'."@,
        ),
        descriptor(
            INDEX_URI_START@ + index + SCHEMA_END@,
            "Index "@ + index + " Schema"@,
            "Schema resource for CameoDB index '"@ + index + "'."@,
        ),
        descriptor(
            INDEX_URI_START@ + index + STATS_END@,
            "Index "@ + index + " Statistics"@,
            "Statistics resource for CameoDB index '"@ + index + "'."@,
        ),
    ]
}

/// The index that an entry of the catalogue names.
pub open spec fn entry_index(entry: JsonV) -> Option<Seq<char>> {
    broadcast::text_of_value(entry.get("index"@))
}

/// The resources of some entries of the catalogue, none where an entry names no index.
pub open spec fn resources_of(entries: Seq<JsonV>) -> Option<Seq<JsonV>>
    decreases entries.len(),
{
    if entries.len() == 0 {
        Some(seq![catalogue_resource()])
    } else {
        match (resources_of(entries.drop_last()), entry_index(entries.last())) {
            (Some(before), Some(index)) => Some(before + index_resources(index)),
            _ => None,
        }
    }
}

/// Three texts in one.
fn three(a: &str, b: &str, c: &str) -> (whole: String)
    ensures
        whole@ == a@ + b@ + c@,
{
    let mut whole: String = String::from_str(a);
    whole.append(b);
    whole.append(c);
    whole
}

/// Lists the three resources of an index.
fn add_index_resources(resources: &mut Vec<Json>, index: &str)
    ensures
        json::models(final(resources)@) == json::models(old(resources)@) + index_resources(index@),
{
    let ghost before = json::models(resources@);
    proof {
        reveal_strlit("");
    }
    resources.push(
        resource_descriptor(
            three(INDEX_URI_START, index, "").as_str(),
            three("Index ", index, "").as_str(),
            three("Metadata resource for CameoDB index '", index, "'.").as_str(),
        ),
    );
    resources.push(
        resource_descriptor(
            three(INDEX_URI_START, index, SCHEMA_END).as_str(),
            three("Index ", index, " Schema").as_str(),
            three("Schema resource for CameoDB index '", index, "'.").as_str(),
        ),
    );
    resources.push(
        resource_descriptor(
            three(INDEX_URI_START, index, STATS_END).as_str(),
            three("Index ", index, " Statistics").as_str(),
            three("Statistics resource for CameoDB index '", index, "'.").as_str(),
        ),
    );
    proof {
        assert(INDEX_URI_START@ + index@ + ""@ =~= INDEX_URI_START@ + index@);
        assert("Index "@ + index@ + ""@ =~= "Index "@ + index@);
        assert(json::models(resources@) =~= before + index_resources(index@));
    }
}

/// Once one of the first entries names no index, there are no resources.
proof fn lemma_unnamed_entry(entries: Seq<JsonV>, count: int)
    requires
        0 <= count <= entries.len(),
        resources_of(entries.take(count)) is None,
    ensures
        resources_of(entries) is None,
    decreases entries.len() - count,
{
    if count < entries.len() {
        assert(entries.take(count + 1).drop_last() =~= entries.take(count));
        lemma_unnamed_entry(entries, count + 1);
    } else {
        assert(entries.take(count) =~= entries);
    }
}

/// Lists the resources of a catalogue: itself, and three for each index that it lists. So a caller who
/// sees some indexes only is handed no other's URI.
pub fn list_resources(catalogue: &Json) -> (listed: Result<Json, String>)
    ensures
        match listed {
            Ok(value) => resources_of(discovery::listed_entries(catalogue@)) is Some && value@ == JsonV::Array(
                resources_of(discovery::listed_entries(catalogue@))->0,
            ),
            Err(message) => resources_of(discovery::listed_entries(catalogue@)) is None && message@
                == "Index entry missing index name"@,
        },
{
    let ghost all = discovery::listed_entries(catalogue@);
    let mut resources: Vec<Json> = Vec::new();
    resources.push(
        resource_descriptor(
            CATALOGUE_URI,
            "CameoDB Index Catalog",
            "Every CameoDB index, with its description, document count and field names. Per-index schema is at cameodb://indexes/{index}.",
        ),
    );
    assert(json::models(resources@) =~= seq![catalogue_resource()]);
    if let Some(value) = catalogue.get("indexes") {
        if let Some(items) = value.as_array() {
            let mut i: usize = 0;
            assert(all.take(0) =~= Seq::empty());
            while i < items.len()
                invariant
                    i <= items.len(),
                    all == json::models(items@),
                    all == discovery::listed_entries(catalogue@),
                    resources_of(all.take(i as int)) == Some(json::models(resources@)),
                decreases items.len() - i,
            {
                proof {
                    assert(all.take(i + 1).drop_last() =~= all.take(i as int));
                    assert(all.take(i + 1).last() == items@[i as int]@);
                }
                match text_at(&items[i], "index") {
                    Some(index) => {
                        add_index_resources(&mut resources, index.as_str());
                    },
                    None => {
                        proof {
                            lemma_unnamed_entry(all, i + 1);
                        }
                        return Err(String::from_str("Index entry missing index name"));
                    },
                }
                i += 1;
            }
            assert(all.take(items.len() as int) =~= all);
        }
    }
    Ok(Json::list(resources))
}

// ---------------------------------------------------------------------------
// Reading
// ---------------------------------------------------------------------------

/// What a resource URI asks to read.
#[derive(Debug, PartialEq, Eq)]
pub enum ResourceRead {
    /// The catalogue.
    Catalogue,
    /// The schema of an index.
    Schema(String),
    /// The statistics of an index.
    Stats(String),
    /// The description of an index.
    Description(String),
}

/// What a resource URI asks to read, as a value of the model.
pub enum ReadV {
    Catalogue,
    Schema(Seq<char>),
    Stats(Seq<char>),
    Description(Seq<char>),
}

impl View for ResourceRead {
    type V = ReadV;

    open spec fn view(&self) -> ReadV {
        match *self {
            ResourceRead::Catalogue => ReadV::Catalogue,
            ResourceRead::Schema(index) => ReadV::Schema(index@),
            ResourceRead::Stats(index) => ReadV::Stats(index@),
            ResourceRead::Description(index) => ReadV::Description(index@),
        }
    }
}

/// Whether a text ends with a part.
pub open spec fn ends_with(text: Seq<char>, part: Seq<char>) -> bool {
    part.len() <= text.len() && text.subrange(text.len() - part.len(), text.len() as int) == part
}

/// A text without so many characters at its end.
pub open spec fn without_end(text: Seq<char>, count: nat) -> Seq<char> {
    text.subrange(0, text.len() - count)
}

/// What a text holds in front of an ending, where it has it.
fn strip_end(text: &str, part: &str) -> (front: Option<String>)
    ensures
        front is Some <==> ends_with(text@, part@),
        front matches Some(f) ==> f@ == without_end(text@, part@.len()),
{
    let chars: Vec<char> = chars_of(text);
    let ending: Vec<char> = chars_of(part);
    if ending.len() > chars.len() {
        return None;
    }
    let at: usize = chars.len() - ending.len();
    let tail: String = text_of(&chars, at, chars.len());
    if same_text(tail.as_str(), part) {
        Some(text_of(&chars, 0, at))
    } else {
        None
    }
}

/// What a URI asks to read, if it is one of ours.
pub open spec fn read_of(uri: Seq<char>) -> Option<ReadV> {
    if uri == CATALOGUE_URI@ {
        Some(ReadV::Catalogue)
    } else if !text::begins_with(uri, INDEX_URI_START@) {
        None
    } else {
        let resource = uri.skip(INDEX_URI_START@.len() as int);
        if ends_with(resource, SCHEMA_END@) {
            Some(ReadV::Schema(without_end(resource, SCHEMA_END@.len())))
        } else if ends_with(resource, STATS_END@) {
            Some(ReadV::Stats(without_end(resource, STATS_END@.len())))
        } else {
            Some(ReadV::Description(resource))
        }
    }
}

/// Says what a resource URI asks to read.
pub fn plan_read(uri: &str) -> (plan: Result<ResourceRead, String>)
    ensures
        match plan {
            Ok(read) => read_of(uri@) == Some(read@),
            Err(message) => read_of(uri@) is None && message@ == "Unsupported resource URI: "@ + uri@,
        },
{
    if same_text(uri, CATALOGUE_URI) {
        return Ok(ResourceRead::Catalogue);
    }
    if !starts_with_part(uri, INDEX_URI_START) {
        let mut message: String = String::from_str("Unsupported resource URI: ");
        message.append(uri);
        return Err(message);
    }
    let chars: Vec<char> = chars_of(uri);
    let start: Vec<char> = chars_of(INDEX_URI_START);
    let resource: String = text_of(&chars, start.len(), chars.len());
    assert(resource@ =~= uri@.skip(INDEX_URI_START@.len() as int));
    if let Some(index) = strip_end(resource.as_str(), SCHEMA_END) {
        return Ok(ResourceRead::Schema(index));
    }
    if let Some(index) = strip_end(resource.as_str(), STATS_END) {
        return Ok(ResourceRead::Stats(index));
    }
    Ok(ResourceRead::Description(resource))
}

/// The index that a read is of.
pub open spec fn read_index(read: ReadV) -> Option<Seq<char>> {
    match read {
        ReadV::Catalogue => None,
        ReadV::Schema(index) => Some(index),
        ReadV::Stats(index) => Some(index),
        ReadV::Description(index) => Some(index),
    }
}

impl ResourceRead {
    /// The index that the read is of, which the caller has to be permitted on.
    pub fn index(&self) -> (index: Option<&str>)
        ensures
            match index {
                Some(name) => read_index(self@) == Some(name@),
                None => read_index(self@) is None,
            },
    {
        match self {
            ResourceRead::Catalogue => None,
            ResourceRead::Schema(index) => Some(index.as_str()),
            ResourceRead::Stats(index) => Some(index.as_str()),
            ResourceRead::Description(index) => Some(index.as_str()),
        }
    }
}

/// Refuses a read of an index that the caller is not permitted on. The catalogue is every caller's: it
/// lists no other indexes than the caller may see.
pub fn permit_read(read: ResourceRead, allowed: bool) -> (permitted: Result<ResourceRead, String>)
    ensures
        match permitted {
            Ok(kept) => kept == read && (allowed || read@ is Catalogue),
            Err(message) => !allowed && read_index(read@) is Some && message@
                == "this key is not permitted on index '"@ + read_index(read@)->0 + "'"@,
        },
{
    if !allowed {
        if let Some(index) = read.index() {
            let mut message: String = String::from_str("this key is not permitted on index '");
            message.append(index);
            message.append("'");
            return Err(message);
        }
    }
    Ok(read)
}

/// The schema of an index, out of its description: what stands there as its schema, or else the
/// fields that the schema was put into.
pub open spec fn schema_in(details: JsonV) -> JsonV {
    match details.get("schema"@) {
        Some(schema) => schema,
        None => field_info::held_or_null(details, "fields"@),
    }
}

/// The schema of an index, out of its description.
pub fn schema_of_description(details: &Json) -> (schema: Json)
    ensures
        schema@ == schema_in(details@),
{
    match details.get("schema") {
        Some(schema) => schema.clone(),
        None => copy_or_null(details, "fields"),
    }
}

/// The schema that is read of an index is the fields that the node lists of it.
pub proof fn law_a_schema_reads_the_fields(
    name: Seq<char>,
    totals: TotalsV,
    include_data_size: bool,
    description: Option<Seq<char>>,
    fields: Seq<JsonV>,
    hints: HintsV,
    types: Seq<Seq<char>>,
    details: JsonV,
)
    requires
        field_info::is_enriched(
            details,
            catalog::listed_index(name, totals, include_data_size, description, fields),
            hints,
            types,
        ),
    ensures
        schema_in(details) == JsonV::Array(fields),
{
    reveal_strlit("name");
    reveal_strlit("document_count");
    reveal_strlit("index_size_bytes");
    reveal_strlit("memory_bytes");
    reveal_strlit("data_size_bytes");
    reveal_strlit("total_size_bytes");
    reveal_strlit("shard_count");
    reveal_strlit("warm_shards");
    reveal_strlit("description");
    reveal_strlit("field_count");
    reveal_strlit("fields");
    reveal_strlit("schema");
    reveal_strlit("query_hints");
    let listed = catalog::listed_index(name, totals, include_data_size, description, fields);
    let shown = JsonV::Array(field_info::type_hint_values(hints, types));
    assert("fields"@.len() == 6 && "schema"@.len() == 6 && "query_hints"@.len() == 11);
    assert("fields"@[0] == 'f' && "schema"@[0] == 's');
    if let JsonV::Object(entries) = listed {
        let last = entries.len() - 1;
        assert(entries[last] == ("fields"@, JsonV::Array(fields)));
        assert forall|i: int| 0 <= i < last implies (#[trigger] entries[i]).0.len() != 6 by {
            assert("name"@.len() == 4 && "document_count"@.len() == 14);
            assert("index_size_bytes"@.len() == 16 && "memory_bytes"@.len() == 12);
            assert("data_size_bytes"@.len() == 15 && "total_size_bytes"@.len() == 16);
            assert("shard_count"@.len() == 11 && "warm_shards"@.len() == 11);
            assert("description"@.len() == 11 && "field_count"@.len() == 11);
        }
        json::lemma_key_place_is(entries, "fields"@, last);
        json::lemma_key_place_is(entries, "schema"@, entries.len() as int);
    }
    json::lemma_read_back(listed, "query_hints"@, shown, "fields"@);
    json::lemma_read_back(listed, "query_hints"@, shown, "schema"@);
}

/// Every URI that a catalogue lists for an index reads that index: its schema, its statistics, and its
/// description unless the index's own name ends as one of the other two does.
pub proof fn law_a_listed_uri_reads_its_index(index: Seq<char>)
    ensures
        read_of(INDEX_URI_START@ + index + SCHEMA_END@) == Some(ReadV::Schema(index)),
        read_of(INDEX_URI_START@ + index + STATS_END@) == Some(ReadV::Stats(index)),
        !ends_with(index, SCHEMA_END@) && !ends_with(index, STATS_END@) ==> read_of(
            INDEX_URI_START@ + index,
        ) == Some(ReadV::Description(index)),
{
    reveal_strlit("cameodb://indexes");
    reveal_strlit("cameodb://indexes/");
    reveal_strlit("/schema");
    reveal_strlit("/stats");
    let start = INDEX_URI_START@;
    let schema = start + index + SCHEMA_END@;
    let stats = start + index + STATS_END@;
    let plain = start + index;
    assert(schema.subrange(0, start.len() as int) =~= start);
    assert(stats.subrange(0, start.len() as int) =~= start);
    assert(plain.subrange(0, start.len() as int) =~= start);
    let of_schema = index + SCHEMA_END@;
    let of_stats = index + STATS_END@;
    assert(schema.skip(start.len() as int) =~= of_schema);
    assert(stats.skip(start.len() as int) =~= of_stats);
    assert(plain.skip(start.len() as int) =~= index);
    assert(of_schema.subrange(of_schema.len() - 7, of_schema.len() as int) =~= SCHEMA_END@);
    assert(without_end(of_schema, 7) =~= index);
    assert(of_stats.subrange(of_stats.len() - 6, of_stats.len() as int) =~= STATS_END@);
    assert(without_end(of_stats, 6) =~= index);
    if ends_with(of_stats, SCHEMA_END@) {
        let tail = of_stats.subrange(of_stats.len() - 7, of_stats.len() as int);
        assert(tail[6] == of_stats[of_stats.len() - 1]);
        assert(of_stats[of_stats.len() - 1] == 's');
        assert(SCHEMA_END@[6] == 'a');
    }
}

} // verus!
