//! Listings of indexes: of one node, from what its shards report, and of a cluster, from what its
//! nodes report.

use vstd::prelude::*;
use vstd::string::*;
use crate::{describe, json, names, order, schema_update, search, text};
use crate::describe::{describe_fields, push_text};
use crate::errors::push_distinct;
use crate::json::{Json, JsonV, entry};
use crate::names::listing_places;
use crate::order::rearranged;
use crate::schema::IndexSchema;
use crate::text::{same_text, uuid_text};

verus! {

// ---------------------------------------------------------------------------
// Entries by name
// ---------------------------------------------------------------------------

/// The names of some entries.
pub open spec fn names_of<T>(entries: Seq<(Seq<char>, T)>) -> Seq<Seq<char>> {
    entries.map_values(|entry: (Seq<char>, T)| entry.0)
}

/// Whether values are those of some entries, in alphabetical order of their names, `id` first where
/// that is asked for.
pub open spec fn is_in_name_order<T>(
    values: Seq<T>,
    entries: Seq<(Seq<char>, T)>,
    id_first: bool,
    listed: Seq<Seq<char>>,
    order: Seq<int>,
) -> bool {
    &&& names::is_listing(listed, names_of(entries), id_first, order)
    &&& values == order::at_places(entries, order).map_values(|entry: (Seq<char>, T)| entry.1)
}

/// Lists values by the names they stand under.
pub fn values_by_name(entries: Vec<(String, Json)>, id_first: bool) -> (values: Vec<Json>)
    ensures
        exists|listed: Seq<Seq<char>>, order: Seq<int>| #[trigger]
            is_in_name_order(json::models(values@), json::entry_models(entries@), id_first, listed, order),
{
    let ghost all = json::entry_models(entries@);
    let mut names: Vec<String> = Vec::new();
    let mut values: Vec<Json> = Vec::new();
    for item in it: entries
        invariant
            it.seq() == entries@,
            all == json::entry_models(entries@),
            names@.len() == it.index(),
            values@.len() == it.index(),
            forall|k: int| 0 <= k < it.index() ==> #[trigger] names@[k]@ == all[k].0,
            forall|k: int| 0 <= k < it.index() ==> #[trigger] values@[k]@ == all[k].1,
    {
        assert(item == entries@[it.index() as int]);
        let (name, value) = item;
        names.push(name);
        values.push(value);
    }
    assert(text::texts(names@) =~= names_of(all));
    let list: Vec<usize> = listing_places(&names, id_first);
    let ghost given = values@;
    let listed_values: Vec<Json> = rearranged(values, &list);
    proof {
        let order = order::places(list@);
        let listed = order::at_places(names_of(all), order);
        assert(names::is_listing(listed, names_of(all), id_first, order));
        assert(json::models(listed_values@) =~= order::at_places(all, order).map_values(
            |entry: (Seq<char>, JsonV)| entry.1,
        )) by {
            assert forall|i: int| 0 <= i < list@.len() implies #[trigger] listed_values@[i]@
                == all[order[i]].1 by {
                assert(order[i] == list@[i]);
                assert(listed_values@[i] == given[order[i]]);
            }
        }
        assert(is_in_name_order(json::models(listed_values@), all, id_first, listed, order));
    }
    listed_values
}

/// Entries that stand under the same names have one listing.
pub proof fn law_a_catalog_is_one_list<T>(
    entries: Seq<(Seq<char>, T)>,
    id_first: bool,
    one: Seq<T>,
    one_listed: Seq<Seq<char>>,
    one_order: Seq<int>,
    other: Seq<T>,
    other_listed: Seq<Seq<char>>,
    other_order: Seq<int>,
)
    requires
        is_in_name_order(one, entries, id_first, one_listed, one_order),
        is_in_name_order(other, entries, id_first, other_listed, other_order),
    ensures
        one == other,
{
    let names = names_of(entries);
    names::lemma_names_stand_in_one_order(names, id_first);
    order::law_one_ordering(names.len(), names::name_before(names, id_first), one_order, other_order);
}

// ---------------------------------------------------------------------------
// One node
// ---------------------------------------------------------------------------

/// What one shard reports of one index.
#[derive(Debug, PartialEq)]
pub struct ShardIndexStats {
    pub name: String,
    pub document_count: u64,
    pub redb_bytes: u64,
    pub tantivy_bytes: u64,
    /// Whether the search index has been built.
    pub tantivy_index_exists: bool,
    /// Whether the reader has finished warming.
    pub warm: bool,
    /// The fields that the built index can search.
    pub searchable_fields: Vec<String>,
    /// The fields that the built index can sort exactly.
    pub sortable_fields: Vec<String>,
}

/// What the shards of a node report of one index, put together.
#[derive(Debug, PartialEq)]
pub struct IndexTotals {
    pub document_count: u64,
    pub redb_bytes: u64,
    pub tantivy_bytes: u64,
    /// Shards that hold data for the index.
    pub shard_count: u64,
    /// Of those, how many have finished warming their reader.
    pub warm_shards: u64,
    pub searchable: Vec<String>,
    pub sortable: Vec<String>,
}

/// Totals, as a value of the model.
pub struct TotalsV {
    pub document_count: u64,
    pub redb_bytes: u64,
    pub tantivy_bytes: u64,
    pub shard_count: u64,
    pub warm_shards: u64,
    pub searchable: Seq<Seq<char>>,
    pub sortable: Seq<Seq<char>>,
}

impl View for IndexTotals {
    type V = TotalsV;

    open spec fn view(&self) -> TotalsV {
        TotalsV {
            document_count: self.document_count,
            redb_bytes: self.redb_bytes,
            tantivy_bytes: self.tantivy_bytes,
            shard_count: self.shard_count,
            warm_shards: self.warm_shards,
            searchable: text::texts(self.searchable@),
            sortable: text::texts(self.sortable@),
        }
    }
}

/// The totals of nothing.
pub open spec fn no_totals() -> TotalsV {
    TotalsV {
        document_count: 0,
        redb_bytes: 0,
        tantivy_bytes: 0,
        shard_count: 0,
        warm_shards: 0,
        searchable: Seq::empty(),
        sortable: Seq::empty(),
    }
}

/// Whether a shard holds data for an index.
pub open spec fn holds_data(stats: ShardIndexStats) -> bool {
    stats.document_count > 0 || stats.redb_bytes > 0 || stats.tantivy_bytes > 0
        || stats.tantivy_index_exists
}

/// Totals with what one more shard reports.
///
/// A field counts as searchable where any shard can search it: a search asks every shard, and one
/// that has the column can answer.
pub open spec fn totals_with(before: TotalsV, stats: ShardIndexStats) -> TotalsV {
    TotalsV {
        document_count: (before.document_count + stats.document_count) as u64,
        redb_bytes: (before.redb_bytes + stats.redb_bytes) as u64,
        tantivy_bytes: (before.tantivy_bytes + stats.tantivy_bytes) as u64,
        shard_count: if holds_data(stats) {
            (before.shard_count + 1) as u64
        } else {
            before.shard_count
        },
        warm_shards: if holds_data(stats) && stats.warm {
            (before.warm_shards + 1) as u64
        } else {
            before.warm_shards
        },
        searchable: schema_update::union_in_order(before.searchable, text::texts(stats.searchable_fields@)),
        sortable: schema_update::union_in_order(before.sortable, text::texts(stats.sortable_fields@)),
    }
}

/// The totals under a name, those of nothing where there are none.
pub open spec fn totals_under(totals: Seq<(Seq<char>, TotalsV)>, name: Seq<char>) -> TotalsV {
    match json::value_under(totals, name) {
        Some(found) => found,
        None => no_totals(),
    }
}

/// The totals by index of what some shards report.
pub open spec fn totals_by_index(stats: Seq<ShardIndexStats>) -> Seq<(Seq<char>, TotalsV)>
    decreases stats.len(),
{
    if stats.len() == 0 {
        Seq::empty()
    } else {
        let before = totals_by_index(stats.drop_last());
        json::with_entry(
            before,
            stats.last().name@,
            totals_with(totals_under(before, stats.last().name@), stats.last()),
        )
    }
}

/// How many documents some reports count.
pub open spec fn documents_reported(stats: Seq<ShardIndexStats>) -> nat
    decreases stats.len(),
{
    if stats.len() == 0 {
        0
    } else {
        documents_reported(stats.drop_last()) + stats.last().document_count as nat
    }
}

/// How many bytes some reports count.
pub open spec fn bytes_reported(stats: Seq<ShardIndexStats>) -> nat
    decreases stats.len(),
{
    if stats.len() == 0 {
        0
    } else {
        bytes_reported(stats.drop_last()) + stats.last().redb_bytes as nat
            + stats.last().tantivy_bytes as nat
    }
}

/// Totals by index, as values of the model.
pub open spec fn totals_models(totals: Seq<(String, IndexTotals)>) -> Seq<(Seq<char>, TotalsV)> {
    totals.map_values(|entry: (String, IndexTotals)| (entry.0@, entry.1@))
}

/// The totals of the first reports are at most those of all.
proof fn lemma_reports_grow(stats: Seq<ShardIndexStats>, count: int)
    requires
        0 <= count <= stats.len(),
    ensures
        documents_reported(stats.take(count)) <= documents_reported(stats),
        bytes_reported(stats.take(count)) <= bytes_reported(stats),
    decreases stats.len(),
{
    if count < stats.len() {
        let shorter = stats.drop_last();
        lemma_reports_grow(shorter, count);
        assert(shorter.take(count) =~= stats.take(count));
    } else {
        assert(stats.take(count) =~= stats);
    }
}

/// Whether no total exceeds what was reported altogether.
pub open spec fn totals_bounded(
    totals: Seq<(Seq<char>, TotalsV)>,
    documents: nat,
    bytes: nat,
    reports: nat,
) -> bool {
    forall|i: int|
        0 <= i < totals.len() ==> {
            &&& (#[trigger] totals[i]).1.document_count <= documents
            &&& totals[i].1.redb_bytes + totals[i].1.tantivy_bytes <= bytes
            &&& totals[i].1.shard_count <= reports
            &&& totals[i].1.warm_shards <= totals[i].1.shard_count
        }
}

/// No total exceeds what was reported altogether.
pub proof fn lemma_totals_are_bounded(stats: Seq<ShardIndexStats>)
    requires
        documents_reported(stats) <= u64::MAX,
        bytes_reported(stats) <= u64::MAX,
        stats.len() <= u64::MAX,
    ensures
        totals_bounded(
            totals_by_index(stats),
            documents_reported(stats),
            bytes_reported(stats),
            stats.len(),
        ),
    decreases stats.len(),
{
    if stats.len() > 0 {
        let shorter = stats.drop_last();
        lemma_totals_are_bounded(shorter);
        let before = totals_by_index(shorter);
        let name = stats.last().name@;
        json::lemma_key_place(before, name);
    }
}

/// Finds totals by name.
fn find_totals(totals: &Vec<(String, IndexTotals)>, name: &str) -> (place: usize)
    ensures
        place == json::key_place(totals_models(totals@), name@),
        place <= totals@.len(),
{
    let ghost all = totals_models(totals@);
    let mut i: usize = 0;
    while i < totals.len()
        invariant
            i <= totals.len(),
            all == totals_models(totals@),
            forall|k: int| 0 <= k < i ==> #[trigger] all[k].0 != name@,
        decreases totals.len() - i,
    {
        if same_text(totals[i].0.as_str(), name) {
            proof {
                assert(all[i as int].0 == name@);
                json::lemma_key_place(all, name@);
                let place = json::key_place(all, name@);
                if place < i {
                    assert(all[place].0 == name@);
                }
            }
            return i;
        }
        assert(all[i as int].0 == totals@[i as int].0@);
        i += 1;
    }
    proof {
        json::lemma_key_place(all, name@);
        let place = json::key_place(all, name@);
        if place < all.len() {
            assert(all[place].0 == name@);
        }
    }
    totals.len()
}

/// Adds names to a list, those already there left out.
fn add_names(into: &mut Vec<String>, from: &Vec<String>)
    ensures
        text::texts(final(into)@) == schema_update::union_in_order(text::texts(old(into)@), text::texts(from@)),
{
    let ghost start = text::texts(into@);
    let ghost more = text::texts(from@);
    let mut i: usize = 0;
    while i < from.len()
        invariant
            i <= from.len(),
            more == text::texts(from@),
            text::texts(into@) == schema_update::union_in_order(start, more.take(i as int)),
        decreases from.len() - i,
    {
        proof {
            assert(more.take(i + 1).drop_last() =~= more.take(i as int));
            assert(more.take(i + 1).last() == more[i as int]);
        }
        push_distinct(into, from[i].as_str());
        i += 1;
    }
    assert(more.take(from.len() as int) =~= more);
}

impl IndexTotals {
    /// The totals of nothing.
    fn none() -> (totals: IndexTotals)
        ensures
            totals@ == no_totals(),
    {
        let totals = IndexTotals {
            document_count: 0,
            redb_bytes: 0,
            tantivy_bytes: 0,
            shard_count: 0,
            warm_shards: 0,
            searchable: Vec::new(),
            sortable: Vec::new(),
        };
        assert(text::texts(totals.searchable@) =~= Seq::empty());
        assert(text::texts(totals.sortable@) =~= Seq::empty());
        totals
    }

    /// Adds what one shard reports.
    fn take_report(&mut self, stats: &ShardIndexStats)
        requires
            old(self).document_count + stats.document_count <= u64::MAX,
            old(self).redb_bytes + stats.redb_bytes <= u64::MAX,
            old(self).tantivy_bytes + stats.tantivy_bytes <= u64::MAX,
            old(self).shard_count < u64::MAX,
            old(self).warm_shards < u64::MAX,
        ensures
            final(self)@ == totals_with(old(self)@, *stats),
    {
        self.document_count = self.document_count + stats.document_count;
        self.redb_bytes = self.redb_bytes + stats.redb_bytes;
        self.tantivy_bytes = self.tantivy_bytes + stats.tantivy_bytes;
        if stats.document_count > 0 || stats.redb_bytes > 0 || stats.tantivy_bytes > 0
            || stats.tantivy_index_exists {
            self.shard_count = self.shard_count + 1;
            if stats.warm {
                self.warm_shards = self.warm_shards + 1;
            }
        }
        add_names(&mut self.searchable, &stats.searchable_fields);
        add_names(&mut self.sortable, &stats.sortable_fields);
    }
}

/// Totals by index what the shards of a node report.
pub fn total_by_index(stats: &Vec<ShardIndexStats>) -> (totals: Vec<(String, IndexTotals)>)
    requires
        documents_reported(stats@) <= u64::MAX,
        bytes_reported(stats@) <= u64::MAX,
    ensures
        totals_models(totals@) == totals_by_index(stats@),
{
    let mut totals: Vec<(String, IndexTotals)> = Vec::new();
    let ghost all = stats@;
    let count: usize = stats.len();
    let mut i: usize = 0;
    assert(totals_models(totals@) =~= totals_by_index(all.take(0)));
    while i < count
        invariant
            i <= count,
            count == stats@.len(),
            all == stats@,
            documents_reported(all) <= u64::MAX,
            bytes_reported(all) <= u64::MAX,
            totals_models(totals@) == totals_by_index(all.take(i as int)),
        decreases count - i,
    {
        let report: &ShardIndexStats = &stats[i];
        let ghost before = totals_models(totals@);
        proof {
            let longer = all.take(i + 1);
            assert(longer.drop_last() =~= all.take(i as int));
            assert(longer.last() == report);
            lemma_reports_grow(all, i as int);
            lemma_reports_grow(all, i + 1);
            lemma_totals_are_bounded(all.take(i as int));
            json::lemma_key_place(before, report.name@);
        }
        let place: usize = find_totals(&totals, report.name.as_str());
        if place < totals.len() {
            let ghost given = totals@;
            assert(before[place as int].1 == given[place as int].1@);
            totals[place].1.take_report(report);
            assert(totals_models(totals@) =~= before.update(
                place as int,
                (before[place as int].0, totals_with(before[place as int].1, *report)),
            ));
        } else {
            let mut fresh: IndexTotals = IndexTotals::none();
            fresh.take_report(report);
            let ghost given = totals@;
            totals.push((report.name.clone(), fresh));
            assert(totals_models(totals@) =~= before.push(
                (report.name@, totals_with(no_totals(), *report)),
            ));
        }
        assert(totals_models(totals@) =~= json::with_entry(
            before,
            report.name@,
            totals_with(totals_under(before, report.name@), *report),
        ));
        i += 1;
    }
    assert(all.take(stats.len() as int) =~= all);
    totals
}

/// What a node lists of one index, with these descriptions of its fields.
pub open spec fn listed_index(
    name: Seq<char>,
    totals: TotalsV,
    include_data_size: bool,
    description: Option<Seq<char>>,
    fields: Seq<JsonV>,
) -> JsonV {
    JsonV::Object(
        seq![
            ("name"@, JsonV::Text(name)),
            ("document_count"@, search::count_value(totals.document_count as nat)),
            ("index_size_bytes"@, search::count_value(totals.tantivy_bytes as nat)),
            (
                "memory_bytes"@,
                search::count_value((totals.redb_bytes + totals.tantivy_bytes) as nat),
            ),
        ] + (if include_data_size {
            seq![
                ("data_size_bytes"@, search::count_value(totals.redb_bytes as nat)),
                (
                    "total_size_bytes"@,
                    search::count_value((totals.redb_bytes + totals.tantivy_bytes) as nat),
                ),
            ]
        } else {
            Seq::empty()
        }) + seq![
            ("shard_count"@, search::count_value(totals.shard_count as nat)),
            ("warm_shards"@, search::count_value(totals.warm_shards as nat)),
        ] + describe::text_entry("description"@, description) + seq![
            ("field_count"@, search::count_value(fields.len())),
            ("fields"@, JsonV::Array(fields)),
        ],
    )
}

/// What a node lists of one index. An unreadable schema is listed as no fields, so that nothing
/// that reads a listing has to tell absent from empty.
pub fn list_index(
    name: &str,
    totals: &IndexTotals,
    include_data_size: bool,
    schema: Option<&IndexSchema>,
) -> (listed: Json)
    requires
        totals.redb_bytes + totals.tantivy_bytes <= u64::MAX,
    ensures
        match schema {
            Some(s) => exists|fields: Seq<JsonV>, names: Seq<Seq<char>>, order: Seq<int>| #[trigger]
                describe::is_description(
                    fields,
                    s@,
                    totals@.searchable,
                    totals@.sortable,
                    names,
                    order,
                ) && listed@ == listed_index(
                    name@,
                    totals@,
                    include_data_size,
                    s@.description,
                    fields,
                ),
            None => listed@ == listed_index(
                name@,
                totals@,
                include_data_size,
                None,
                Seq::empty(),
            ),
        },
{
    let memory: u64 = totals.redb_bytes + totals.tantivy_bytes;
    let mut parts: Vec<(String, Json)> = vec![
        entry("name", Json::text(name)),
        entry("document_count", Json::unsigned(totals.document_count)),
        entry("index_size_bytes", Json::unsigned(totals.tantivy_bytes)),
        entry("memory_bytes", Json::unsigned(memory)),
    ];
    let ghost head = json::entry_models(parts@);
    assert(head =~= seq![
        ("name"@, JsonV::Text(name@)),
        ("document_count"@, search::count_value(totals.document_count as nat)),
        ("index_size_bytes"@, search::count_value(totals.tantivy_bytes as nat)),
        ("memory_bytes"@, search::count_value(memory as nat)),
    ]);
    let ghost sizes = if include_data_size {
        seq![
            ("data_size_bytes"@, search::count_value(totals.redb_bytes as nat)),
            ("total_size_bytes"@, search::count_value(memory as nat)),
        ]
    } else {
        Seq::empty()
    };
    if include_data_size {
        parts.push(entry("data_size_bytes", Json::unsigned(totals.redb_bytes)));
        parts.push(entry("total_size_bytes", Json::unsigned(memory)));
    }
    assert(json::entry_models(parts@) =~= head + sizes);
    parts.push(entry("shard_count", Json::unsigned(totals.shard_count)));
    parts.push(entry("warm_shards", Json::unsigned(totals.warm_shards)));
    let ghost shards = seq![
        ("shard_count"@, search::count_value(totals.shard_count as nat)),
        ("warm_shards"@, search::count_value(totals.warm_shards as nat)),
    ];
    assert(json::entry_models(parts@) =~= head + sizes + shards);
    match schema {
        Some(s) => {
            push_text(&mut parts, "description", &s.description);
            let fields: Vec<Json> = describe_fields(s, &totals.searchable, &totals.sortable);
            let ghost described = json::models(fields@);
            push_field_list(&mut parts, fields);
            let listed: Json = Json::object(parts);
            proof {
                let (names, order) = choose|names: Seq<Seq<char>>, order: Seq<int>| #[trigger]
                    describe::is_description(
                        described,
                        s@,
                        totals@.searchable,
                        totals@.sortable,
                        names,
                        order,
                    );
                assert(listed@ == listed_index(
                    name@,
                    totals@,
                    include_data_size,
                    s@.description,
                    described,
                ));
            }
            listed
        },
        None => {
            let none: Option<String> = None;
            push_text(&mut parts, "description", &none);
            let fields: Vec<Json> = Vec::new();
            assert(json::models(fields@) =~= Seq::empty());
            push_field_list(&mut parts, fields);
            Json::object(parts)
        },
    }
}

/// Adds how many fields an index has, and what they are.
fn push_field_list(parts: &mut Vec<(String, Json)>, fields: Vec<Json>)
    ensures
        json::entry_models(final(parts)@) == json::entry_models(old(parts)@) + seq![
            ("field_count"@, search::count_value(json::models(fields@).len())),
            ("fields"@, JsonV::Array(json::models(fields@))),
        ],
{
    let ghost before = parts@;
    let ghost listed = json::models(fields@);
    let count: usize = fields.len();
    parts.push(entry("field_count", Json::count(count)));
    parts.push(entry("fields", Json::list(fields)));
    assert(json::entry_models(parts@) =~= json::entry_models(before) + seq![
        ("field_count"@, search::count_value(listed.len())),
        ("fields"@, JsonV::Array(listed)),
    ]);
}

/// What a node that holds no shard lists.
pub open spec fn listing_without_shards(node_id: u128, node_name: Seq<char>) -> JsonV {
    JsonV::Object(
        seq![
            ("indexes"@, JsonV::Array(Seq::empty())),
            ("total_indexes"@, search::count_value(0)),
            ("node_id"@, JsonV::Text(text::uuid_chars(node_id))),
            ("node_name"@, JsonV::Text(node_name)),
            ("total_shards"@, search::count_value(0)),
        ],
    )
}

/// What a node that holds no shard lists.
pub fn empty_listing(node_id: u128, node_name: &str) -> (listing: Json)
    ensures
        listing@ == listing_without_shards(node_id, node_name@),
{
    let none: Vec<Json> = Vec::new();
    let ghost listed = json::models(none@);
    let parts: Vec<(String, Json)> = vec![
        entry("indexes", Json::list(none)),
        entry("total_indexes", Json::count(0)),
        entry("node_id", Json::text(uuid_text(node_id).as_str())),
        entry("node_name", Json::text(node_name)),
        entry("total_shards", Json::count(0)),
    ];
    proof {
        assert(listed =~= Seq::empty());
        assert(json::entry_models(parts@) =~= seq![
            ("indexes"@, JsonV::Array(Seq::empty())),
            ("total_indexes"@, search::count_value(0)),
            ("node_id"@, JsonV::Text(text::uuid_chars(node_id))),
            ("node_name"@, JsonV::Text(node_name@)),
            ("total_shards"@, search::count_value(0)),
        ]);
    }
    Json::object(parts)
}

/// The listing of a node, of these indexes.
pub open spec fn listing_body(
    indexes: Seq<JsonV>,
    node_id: u128,
    node_name: Seq<char>,
    shards: nat,
    took_ms: u64,
) -> JsonV {
    JsonV::Object(
        seq![
            ("indexes"@, JsonV::Array(indexes)),
            ("total_indexes"@, search::count_value(indexes.len())),
            ("node_id"@, JsonV::Text(text::uuid_chars(node_id))),
            ("node_name"@, JsonV::Text(node_name)),
            ("total_shards"@, search::count_value(shards)),
            ("took_ms"@, search::count_value(took_ms as nat)),
        ],
    )
}

/// The listing of a node: its indexes in alphabetical order.
pub fn answer_listing(
    indexes: Vec<(String, Json)>,
    node_id: u128,
    node_name: &str,
    shards: usize,
    took_ms: u64,
) -> (listing: Json)
    ensures
        exists|values: Seq<JsonV>, listed: Seq<Seq<char>>, order: Seq<int>| #[trigger]
            is_in_name_order(values, json::entry_models(indexes@), false, listed, order) && listing@
                == listing_body(values, node_id, node_name@, shards as nat, took_ms),
{
    let values: Vec<Json> = values_by_name(indexes, false);
    let ghost listed = json::models(values@);
    let count: usize = values.len();
    let parts: Vec<(String, Json)> = vec![
        entry("indexes", Json::list(values)),
        entry("total_indexes", Json::count(count)),
        entry("node_id", Json::text(uuid_text(node_id).as_str())),
        entry("node_name", Json::text(node_name)),
        entry("total_shards", Json::count(shards)),
        entry("took_ms", Json::unsigned(took_ms)),
    ];
    assert(json::entry_models(parts@) =~= seq![
        ("indexes"@, JsonV::Array(listed)),
        ("total_indexes"@, search::count_value(listed.len())),
        ("node_id"@, JsonV::Text(text::uuid_chars(node_id))),
        ("node_name"@, JsonV::Text(node_name@)),
        ("total_shards"@, search::count_value(shards as nat)),
        ("took_ms"@, search::count_value(took_ms as nat)),
    ]);
    Json::object(parts)
}

/// The longest of some times.
pub open spec fn longest_of(times: Seq<u64>) -> u64
    decreases times.len(),
{
    if times.len() == 0 {
        0
    } else if longest_of(times.drop_last()) >= times.last() {
        longest_of(times.drop_last())
    } else {
        times.last()
    }
}

/// How long a listing took: the shards report at the same time, so the slowest read of the store
/// and the slowest read of the search index.
pub fn listing_time(redb_ms: &Vec<u64>, tantivy_ms: &Vec<u64>) -> (took_ms: u64)
    requires
        longest_of(redb_ms@) + longest_of(tantivy_ms@) <= u64::MAX,
    ensures
        took_ms == longest_of(redb_ms@) + longest_of(tantivy_ms@),
{
    longest_time(redb_ms) + longest_time(tantivy_ms)
}

/// The longest of some times.
fn longest_time(times: &Vec<u64>) -> (longest: u64)
    ensures
        longest == longest_of(times@),
{
    let mut longest: u64 = 0;
    let mut i: usize = 0;
    while i < times.len()
        invariant
            i <= times.len(),
            longest == longest_of(times@.take(i as int)),
        decreases times.len() - i,
    {
        assert(times@.take(i + 1).drop_last() =~= times@.take(i as int));
        if times[i] > longest {
            longest = times[i];
        }
        i += 1;
    }
    assert(times@.take(times.len() as int) =~= times@);
    longest
}

} // verus!
