//! What a catalog of indexes says of what the shards and the nodes reported.

use vstd::prelude::*;
use crate::{
    broadcast_laws, catalog, cluster_catalog, describe, json, names, order, schema, schema_update,
    search_laws, text,
};
use crate::catalog::{ShardIndexStats, TotalsV};
use crate::cluster_catalog::{IndexCounts, IndexStatsV};
use crate::describe::QueryVerdict;
use crate::json::JsonV;
use crate::schema::{FieldV, SchemaV, TantivyFieldType};

verus! {

// ---------------------------------------------------------------------------
// The order of a listing
// ---------------------------------------------------------------------------

/// A listing holds every name once for each time that it is there; where the key comes first it stands
/// before every other name, and other names stand as in a dictionary.
pub proof fn law_a_listing_stands_as_in_a_dictionary(
    listed: Seq<Seq<char>>,
    all: Seq<Seq<char>>,
    id_first: bool,
    order: Seq<int>,
    i: int,
    j: int,
)
    requires
        names::is_listing(listed, all, id_first, order),
        0 <= i < j < listed.len(),
    ensures
        listed.len() == all.len(),
        listed.to_multiset() == all.to_multiset(),
        id_first && listed[j] == "id"@ ==> listed[i] == "id"@,
        !(id_first && listed[i] == "id"@) ==> listed[i] == listed[j] || text::comes_before(
            listed[i],
            listed[j],
        ),
{
    text::law_texts_stand_as_in_a_dictionary(listed[i], listed[j]);
    let before = names::name_before(all, id_first);
    assert(before(order[i], order[j]));
    order::law_an_ordering_keeps_everything(all, order);
}

// ---------------------------------------------------------------------------
// One node's indexes
// ---------------------------------------------------------------------------

/// What the reports on an index say, one after the other.
pub open spec fn reported(
    stats: Seq<ShardIndexStats>,
    name: Seq<char>,
    says: spec_fn(ShardIndexStats) -> nat,
) -> Seq<nat> {
    stats.map_values(
        |report: ShardIndexStats|
            if report.name@ == name {
                says(report)
            } else {
                0nat
            },
    )
}

/// Whether some report on an index names the field as one that can be searched.
pub open spec fn some_searches(
    stats: Seq<ShardIndexStats>,
    name: Seq<char>,
    field: Seq<char>,
) -> bool {
    exists|i: int|
        0 <= i < stats.len() && (#[trigger] stats[i]).name@ == name && text::texts(
            stats[i].searchable_fields@,
        ).contains(field)
}

/// Whether some report on an index names the field as one that can be sorted by.
pub open spec fn some_sorts(
    stats: Seq<ShardIndexStats>,
    name: Seq<char>,
    field: Seq<char>,
) -> bool {
    exists|i: int|
        0 <= i < stats.len() && (#[trigger] stats[i]).name@ == name && text::texts(
            stats[i].sortable_fields@,
        ).contains(field)
}

/// Whether a shard holds anything of an index.
pub open spec fn holds_anything(report: ShardIndexStats) -> bool {
    !(report.document_count == 0 && report.redb_bytes == 0 && report.tantivy_bytes == 0
        && !report.tantivy_index_exists)
}

/// A union holds what either list holds.
proof fn lemma_union_holds(one: Seq<Seq<char>>, more: Seq<Seq<char>>, name: Seq<char>)
    ensures
        schema_update::union_in_order(one, more).contains(name) <==> one.contains(name)
            || more.contains(name),
    decreases more.len(),
{
    if more.len() > 0 {
        let rest = more.drop_last();
        lemma_union_holds(one, rest, name);
        let before = schema_update::union_in_order(one, rest);
        let all = schema_update::union_in_order(one, more);
        if before.contains(name) {
            let k = choose|k: int| 0 <= k < before.len() && before[k] == name;
            assert(all[k] == name);
        }
        if more.contains(name) {
            let k = choose|k: int| 0 <= k < more.len() && more[k] == name;
            if k < rest.len() {
                assert(rest[k] == name);
            } else if !before.contains(name) {
                assert(all[before.len() as int] == name);
            }
        }
        if rest.contains(name) {
            let k = choose|k: int| 0 <= k < rest.len() && rest[k] == name;
            assert(more[k] == name);
        }
        if all.contains(name) && !before.contains(name) {
            let k = choose|k: int| 0 <= k < all.len() && all[k] == name;
            assert(k >= before.len()) by {
                if k < before.len() {
                    assert(before[k] == name);
                }
            }
            assert(more[more.len() - 1] == name);
        }
    } else {
        assert(!more.contains(name));
    }
}

/// An index adds up what its shards report: documents, bytes of data and of search structures, the
/// shards that hold anything of it and those of them that are warm. Every index that is reported is
/// there, and no other.
pub proof fn law_an_index_adds_up_its_shards(stats: Seq<ShardIndexStats>, name: Seq<char>)
    requires
        catalog::documents_reported(stats) <= u64::MAX,
        catalog::bytes_reported(stats) <= u64::MAX,
        stats.len() <= u64::MAX,
    ensures
        ({
            let totals = catalog::totals_under(catalog::totals_by_index(stats), name);
            &&& totals.document_count == order::sum_of(
                reported(stats, name, |report: ShardIndexStats| report.document_count as nat),
            )
            &&& totals.redb_bytes == order::sum_of(
                reported(stats, name, |report: ShardIndexStats| report.redb_bytes as nat),
            )
            &&& totals.tantivy_bytes == order::sum_of(
                reported(stats, name, |report: ShardIndexStats| report.tantivy_bytes as nat),
            )
            &&& totals.shard_count == order::sum_of(
                reported(
                    stats,
                    name,
                    |report: ShardIndexStats|
                        if holds_anything(report) {
                            1nat
                        } else {
                            0nat
                        },
                ),
            )
            &&& totals.warm_shards == order::sum_of(
                reported(
                    stats,
                    name,
                    |report: ShardIndexStats|
                        if holds_anything(report) && report.warm {
                            1nat
                        } else {
                            0nat
                        },
                ),
            )
            &&& totals.document_count <= catalog::documents_reported(stats)
            &&& totals.redb_bytes + totals.tantivy_bytes <= catalog::bytes_reported(stats)
            &&& totals.warm_shards <= totals.shard_count <= stats.len()
            &&& json::has_key(catalog::totals_by_index(stats), name) <==> exists|i: int|
                0 <= i < stats.len() && (#[trigger] stats[i]).name@ == name
        }),
    decreases stats.len(),
{
    if stats.len() > 0 {
        let shorter = stats.drop_last();
        let last = stats.last();
        let before = catalog::totals_by_index(shorter);
        let documents = |report: ShardIndexStats| report.document_count as nat;
        let data = |report: ShardIndexStats| report.redb_bytes as nat;
        let search = |report: ShardIndexStats| report.tantivy_bytes as nat;
        let holding = |report: ShardIndexStats|
            if holds_anything(report) {
                1nat
            } else {
                0nat
            };
        let warm = |report: ShardIndexStats|
            if holds_anything(report) && report.warm {
                1nat
            } else {
                0nat
            };
        law_an_index_adds_up_its_shards(shorter, name);
        law_an_index_adds_up_its_shards(shorter, last.name@);
        assert(reported(stats, name, documents).drop_last() =~= reported(shorter, name, documents));
        assert(reported(stats, name, data).drop_last() =~= reported(shorter, name, data));
        assert(reported(stats, name, search).drop_last() =~= reported(shorter, name, search));
        assert(reported(stats, name, holding).drop_last() =~= reported(shorter, name, holding));
        assert(reported(stats, name, warm).drop_last() =~= reported(shorter, name, warm));
        let put = catalog::totals_with(catalog::totals_under(before, last.name@), last);
        json::lemma_with_entry_read_back(before, last.name@, put, name);
        assert(stats[shorter.len() as int] == last);
        if exists|i: int| 0 <= i < stats.len() && (#[trigger] stats[i]).name@ == name {
            let i = choose|i: int| 0 <= i < stats.len() && (#[trigger] stats[i]).name@ == name;
            if i < shorter.len() {
                assert(shorter[i] == stats[i]);
            }
        }
        if exists|i: int| 0 <= i < shorter.len() && (#[trigger] shorter[i]).name@ == name {
            let i = choose|i: int| 0 <= i < shorter.len() && (#[trigger] shorter[i]).name@ == name;
            assert(stats[i] == shorter[i]);
        }
    }
}

/// A field can be searched, or sorted by, where any shard of the index says so.
pub proof fn law_any_shard_makes_a_field_searchable(
    stats: Seq<ShardIndexStats>,
    name: Seq<char>,
    field: Seq<char>,
)
    ensures
        catalog::totals_under(catalog::totals_by_index(stats), name).searchable.contains(field)
            <==> some_searches(stats, name, field),
        catalog::totals_under(catalog::totals_by_index(stats), name).sortable.contains(field)
            <==> some_sorts(stats, name, field),
    decreases stats.len(),
{
    if stats.len() > 0 {
        let shorter = stats.drop_last();
        let last = stats.last();
        let before = catalog::totals_by_index(shorter);
        law_any_shard_makes_a_field_searchable(shorter, name, field);
        law_any_shard_makes_a_field_searchable(shorter, last.name@, field);
        let known = catalog::totals_under(before, last.name@);
        let put = catalog::totals_with(known, last);
        json::lemma_with_entry_read_back(before, last.name@, put, name);
        lemma_union_holds(known.searchable, text::texts(last.searchable_fields@), field);
        lemma_union_holds(known.sortable, text::texts(last.sortable_fields@), field);
        assert(stats[shorter.len() as int] == last);
        if some_searches(shorter, name, field) {
            let i = choose|i: int|
                0 <= i < shorter.len() && (#[trigger] shorter[i]).name@ == name && text::texts(
                    shorter[i].searchable_fields@,
                ).contains(field);
            assert(stats[i] == shorter[i]);
        }
        if some_sorts(shorter, name, field) {
            let i = choose|i: int|
                0 <= i < shorter.len() && (#[trigger] shorter[i]).name@ == name && text::texts(
                    shorter[i].sortable_fields@,
                ).contains(field);
            assert(stats[i] == shorter[i]);
        }
        if some_searches(stats, name, field) {
            let i = choose|i: int|
                0 <= i < stats.len() && (#[trigger] stats[i]).name@ == name && text::texts(
                    stats[i].searchable_fields@,
                ).contains(field);
            if i < shorter.len() {
                assert(shorter[i] == stats[i]);
            }
        }
        if some_sorts(stats, name, field) {
            let i = choose|i: int|
                0 <= i < stats.len() && (#[trigger] stats[i]).name@ == name && text::texts(
                    stats[i].sortable_fields@,
                ).contains(field);
            if i < shorter.len() {
                assert(shorter[i] == stats[i]);
            }
        }
    }
}

/// The names of a listed index's parts are different names.
proof fn lemma_index_names()
    ensures
        "name"@.len() == 4,
        "description"@.len() == 11,
        "document_count"@.len() == 14,
        "index_size_bytes"@.len() == 16,
        "memory_bytes"@.len() == 12,
        "data_size_bytes"@.len() == 15,
        "total_size_bytes"@.len() == 16,
        "shard_count"@.len() == 11,
        "warm_shards"@.len() == 11,
        "field_count"@.len() == 11,
        "fields"@.len() == 6,
        "index_size_bytes"@[0] == 'i',
        "total_size_bytes"@[0] == 't',
        "description"@[0] == 'd',
        "shard_count"@[0] == 's',
        "warm_shards"@[0] == 'w',
        "field_count"@[0] == 'f',
{
    reveal_strlit("name");
    reveal_strlit("description");
    reveal_strlit("document_count");
    reveal_strlit("index_size_bytes");
    reveal_strlit("memory_bytes");
    reveal_strlit("data_size_bytes");
    reveal_strlit("total_size_bytes");
    reveal_strlit("shard_count");
    reveal_strlit("warm_shards");
    reveal_strlit("field_count");
    reveal_strlit("fields");
}

/// What a list of an index tells: the same of one node and of a cluster.
pub open spec fn tells_counts(listed: JsonV, counts: IndexCounts, include_data_size: bool) -> bool {
    &&& search_laws::is_count(listed.get("document_count"@), counts.document_count as nat)
    &&& search_laws::is_count(listed.get("index_size_bytes"@), counts.index_size_bytes as nat)
    &&& search_laws::is_count(listed.get("memory_bytes"@), counts.memory_bytes as nat)
    &&& include_data_size ==> search_laws::is_count(
        listed.get("data_size_bytes"@),
        counts.data_size_bytes as nat,
    )
    &&& include_data_size ==> search_laws::is_count(
        listed.get("total_size_bytes"@),
        counts.total_size_bytes as nat,
    )
    &&& !include_data_size ==> listed.get("data_size_bytes"@) is None
    &&& !include_data_size ==> listed.get("total_size_bytes"@) is None
    &&& search_laws::is_count(listed.get("shard_count"@), counts.shard_count as nat)
    &&& search_laws::is_count(listed.get("warm_shards"@), counts.warm_shards as nat)
}

/// Whether a value is the text, and absent where there is none.
pub open spec fn is_text_or_absent(value: Option<JsonV>, text: Option<Seq<char>>) -> bool {
    match text {
        Some(words) => value == Some(JsonV::Text(words)),
        None => value is None,
    }
}

/// A listed index tells its name, its counts, the bytes of its data where they are asked for, its
/// description where it has one, and its fields: memory is what data and search structures take
/// together.
pub proof fn law_a_listed_index_tells_its_totals(
    name: Seq<char>,
    totals: TotalsV,
    include_data_size: bool,
    description: Option<Seq<char>>,
    fields: Seq<JsonV>,
)
    requires
        totals.redb_bytes + totals.tantivy_bytes <= u64::MAX,
    ensures
        ({
            let listed = catalog::listed_index(name, totals, include_data_size, description, fields);
            &&& listed.get("name"@) == Some(JsonV::Text(name))
            &&& tells_counts(
                listed,
                IndexCounts {
                    document_count: totals.document_count,
                    index_size_bytes: totals.tantivy_bytes,
                    memory_bytes: (totals.redb_bytes + totals.tantivy_bytes) as u64,
                    data_size_bytes: totals.redb_bytes,
                    total_size_bytes: (totals.redb_bytes + totals.tantivy_bytes) as u64,
                    shard_count: totals.shard_count,
                    warm_shards: totals.warm_shards,
                },
                include_data_size,
            )
            &&& is_text_or_absent(listed.get("description"@), description)
            &&& search_laws::is_count(listed.get("field_count"@), fields.len())
            &&& listed.get("fields"@) == Some(JsonV::Array(fields))
        }),
{
    lemma_index_names();
    let listed = catalog::listed_index(name, totals, include_data_size, description, fields);
    let entries = listed->Object_0;
    let sized: int = if include_data_size {
        2
    } else {
        0
    };
    let told: int = if description is Some {
        1
    } else {
        0
    };
    json::lemma_key_place_is(entries, "name"@, 0);
    json::lemma_key_place_is(entries, "document_count"@, 1);
    json::lemma_key_place_is(entries, "index_size_bytes"@, 2);
    json::lemma_key_place_is(entries, "memory_bytes"@, 3);
    if include_data_size {
        json::lemma_key_place_is(entries, "data_size_bytes"@, 4);
        json::lemma_key_place_is(entries, "total_size_bytes"@, 5);
    } else {
        json::lemma_key_place_is(entries, "data_size_bytes"@, entries.len() as int);
        json::lemma_key_place_is(entries, "total_size_bytes"@, entries.len() as int);
    }
    json::lemma_key_place_is(entries, "shard_count"@, 4 + sized);
    json::lemma_key_place_is(entries, "warm_shards"@, 5 + sized);
    if description is Some {
        json::lemma_key_place_is(entries, "description"@, 6 + sized);
    } else {
        json::lemma_key_place_is(entries, "description"@, entries.len() as int);
    }
    json::lemma_key_place_is(entries, "field_count"@, 6 + sized + told);
    json::lemma_key_place_is(entries, "fields"@, 7 + sized + told);
}

/// The longest of some times is one of them, and none is longer; of none it is nothing.
pub proof fn law_the_longest_time_is_the_longest(times: Seq<u64>)
    ensures
        forall|i: int| 0 <= i < times.len() ==> #[trigger] times[i] <= catalog::longest_of(times),
        times.len() > 0 ==> times.contains(catalog::longest_of(times)),
        times.len() == 0 ==> catalog::longest_of(times) == 0,
    decreases times.len(),
{
    if times.len() > 0 {
        let rest = times.drop_last();
        law_the_longest_time_is_the_longest(rest);
        assert forall|i: int| 0 <= i < times.len() implies #[trigger] times[i]
            <= catalog::longest_of(times) by {
            if i < rest.len() {
                assert(rest[i] == times[i]);
            }
        }
        if catalog::longest_of(times) == times.last() {
            assert(times[times.len() - 1] == times.last());
        } else {
            let k = choose|k: int| 0 <= k < rest.len() && rest[k] == catalog::longest_of(rest);
            assert(times[k] == catalog::longest_of(times));
        }
    }
}

// ---------------------------------------------------------------------------
// A cluster's indexes
// ---------------------------------------------------------------------------

/// The name that a node lists an index under.
pub open spec fn name_in(listed: JsonV) -> Option<Seq<char>> {
    match listed.get("name"@) {
        Some(JsonV::Text(name)) => Some(name),
        _ => None,
    }
}

/// What the nodes say of an index under a key, one listing after the other.
pub open spec fn said_of(listings: Seq<JsonV>, name: Seq<char>, key: Seq<char>) -> Seq<nat> {
    listings.map_values(
        |listed: JsonV|
            if name_in(listed) == Some(name) {
                broadcast_laws::whole_under(listed, key)
            } else {
                0nat
            },
    )
}

/// Whether counts are what the nodes say of an index, added up.
pub open spec fn are_added_up(
    counts: IndexCounts,
    listings: Seq<JsonV>,
    name: Seq<char>,
) -> bool {
    &&& counts.document_count == order::sum_of(said_of(listings, name, "document_count"@))
    &&& counts.index_size_bytes == order::sum_of(said_of(listings, name, "index_size_bytes"@))
    &&& counts.memory_bytes == order::sum_of(said_of(listings, name, "memory_bytes"@))
    &&& counts.data_size_bytes == order::sum_of(said_of(listings, name, "data_size_bytes"@))
    &&& counts.total_size_bytes == order::sum_of(said_of(listings, name, "total_size_bytes"@))
    &&& counts.shard_count == order::sum_of(said_of(listings, name, "shard_count"@))
    &&& counts.warm_shards == order::sum_of(said_of(listings, name, "warm_shards"@))
}

/// What is said of one index is no more than what is said of all.
proof fn lemma_part_of_all(listings: Seq<JsonV>, name: Seq<char>, key: Seq<char>)
    ensures
        order::sum_of(said_of(listings, name, key)) <= cluster_catalog::counted(listings, key),
        listings.len() > 0 ==> order::sum_of(said_of(listings, name, key)) == order::sum_of(
            said_of(listings.drop_last(), name, key),
        ) + (if name_in(listings.last()) == Some(name) {
            broadcast_laws::whole_under(listings.last(), key)
        } else {
            0
        }),
    decreases listings.len(),
{
    if listings.len() > 0 {
        let rest = listings.drop_last();
        lemma_part_of_all(rest, name, key);
        assert(said_of(listings, name, key).drop_last() =~= said_of(rest, name, key));
    }
}

/// A cluster adds up what its nodes say of an index. Every index that some node lists under a name is
/// there, and no other.
#[verifier::rlimit(40)]
pub proof fn law_a_cluster_adds_up_its_nodes(listings: Seq<JsonV>, name: Seq<char>)
    requires
        cluster_catalog::listings_fit(listings),
        name.len() > 0,
    ensures
        match json::value_under(cluster_catalog::stats_by_index(listings), name) {
            Some(stats) => {
                &&& are_added_up(stats.counts, listings, name)
                &&& exists|i: int|
                    0 <= i < listings.len() && name_in(#[trigger] listings[i]) == Some(name)
            },
            None => forall|i: int|
                0 <= i < listings.len() ==> name_in(#[trigger] listings[i]) != Some(name),
        },
    decreases listings.len(),
{
    if listings.len() > 0 {
        let rest = listings.drop_last();
        let last = listings.last();
        let before = cluster_catalog::stats_by_index(rest);
        law_a_cluster_adds_up_its_nodes(rest, name);
        lemma_part_of_all(listings, name, "document_count"@);
        lemma_part_of_all(listings, name, "index_size_bytes"@);
        lemma_part_of_all(listings, name, "memory_bytes"@);
        lemma_part_of_all(listings, name, "data_size_bytes"@);
        lemma_part_of_all(listings, name, "total_size_bytes"@);
        lemma_part_of_all(listings, name, "shard_count"@);
        lemma_part_of_all(listings, name, "warm_shards"@);
        assert(listings[rest.len() as int] == last);
        let own = cluster_catalog::listed_name(last);
        if own.len() > 0 {
            let known = match json::value_under(before, own) {
                Some(known) => known,
                None => cluster_catalog::unlisted_index(),
            };
            let put = cluster_catalog::stats_with(known, last);
            json::lemma_with_entry_read_back(before, own, put, name);
            if own == name && json::value_under(before, name) is None {
                lemma_unsaid(rest, name, "document_count"@);
                lemma_unsaid(rest, name, "index_size_bytes"@);
                lemma_unsaid(rest, name, "memory_bytes"@);
                lemma_unsaid(rest, name, "data_size_bytes"@);
                lemma_unsaid(rest, name, "total_size_bytes"@);
                lemma_unsaid(rest, name, "shard_count"@);
                lemma_unsaid(rest, name, "warm_shards"@);
            }
        }
        if exists|i: int| 0 <= i < rest.len() && name_in(#[trigger] rest[i]) == Some(name) {
            let i = choose|i: int| 0 <= i < rest.len() && name_in(#[trigger] rest[i]) == Some(name);
            assert(listings[i] == rest[i]);
        }
        if json::value_under(cluster_catalog::stats_by_index(listings), name) is None {
            assert forall|i: int| 0 <= i < listings.len() implies name_in(#[trigger] listings[i])
                != Some(name) by {
                if i < rest.len() {
                    assert(rest[i] == listings[i]);
                }
            }
        }
    }
}

/// Of an index that nobody lists nothing is said.
proof fn lemma_unsaid(listings: Seq<JsonV>, name: Seq<char>, key: Seq<char>)
    requires
        forall|i: int| 0 <= i < listings.len() ==> name_in(#[trigger] listings[i]) != Some(name),
    ensures
        order::sum_of(said_of(listings, name, key)) == 0,
    decreases listings.len(),
{
    if listings.len() > 0 {
        let rest = listings.drop_last();
        assert forall|i: int| 0 <= i < rest.len() implies name_in(#[trigger] rest[i]) != Some(
            name,
        ) by {
            assert(rest[i] == listings[i]);
        }
        lemma_unsaid(rest, name, key);
        assert(said_of(listings, name, key).drop_last() =~= said_of(rest, name, key));
        assert(name_in(listings[listings.len() - 1]) != Some(name));
    }
}

/// A listing adds its description to an index that has none, and leaves the one that it has.
pub proof fn law_a_description_is_kept(before: IndexStatsV, listed: JsonV)
    ensures
        before.description is Some ==> cluster_catalog::stats_with(before, listed).description
            == before.description,
        before.description is None ==> (listed.get("description"@) matches Some(JsonV::Text(words))
            ==> cluster_catalog::stats_with(before, listed).description == Some(words)),
        before.description is None && !(listed.get("description"@) matches Some(JsonV::Text(_)))
            ==> cluster_catalog::stats_with(before, listed).description is None,
{
}

/// An index of a cluster tells its name, its description where it has one, its counts, and its fields.
pub proof fn law_a_cluster_index_tells_its_counts(
    name: Seq<char>,
    stats: IndexStatsV,
    include_data_size: bool,
    fields: Seq<JsonV>,
)
    ensures
        ({
            let listed = cluster_catalog::cluster_index(name, stats, include_data_size, fields);
            &&& listed.get("name"@) == Some(JsonV::Text(name))
            &&& tells_counts(listed, stats.counts, include_data_size)
            &&& is_text_or_absent(listed.get("description"@), stats.description)
            &&& search_laws::is_count(listed.get("field_count"@), fields.len())
            &&& listed.get("fields"@) == Some(JsonV::Array(fields))
        }),
{
    lemma_index_names();
    let listed = cluster_catalog::cluster_index(name, stats, include_data_size, fields);
    let entries = listed->Object_0;
    let sized: int = if include_data_size {
        2
    } else {
        0
    };
    let told: int = if stats.description is Some {
        1
    } else {
        0
    };
    json::lemma_key_place_is(entries, "name"@, 0);
    if stats.description is Some {
        json::lemma_key_place_is(entries, "description"@, 1);
    } else {
        json::lemma_key_place_is(entries, "description"@, entries.len() as int);
    }
    json::lemma_key_place_is(entries, "document_count"@, 1 + told);
    json::lemma_key_place_is(entries, "index_size_bytes"@, 2 + told);
    json::lemma_key_place_is(entries, "memory_bytes"@, 3 + told);
    if include_data_size {
        json::lemma_key_place_is(entries, "data_size_bytes"@, 4 + told);
        json::lemma_key_place_is(entries, "total_size_bytes"@, 5 + told);
    } else {
        json::lemma_key_place_is(entries, "data_size_bytes"@, entries.len() as int);
        json::lemma_key_place_is(entries, "total_size_bytes"@, entries.len() as int);
    }
    json::lemma_key_place_is(entries, "shard_count"@, 4 + told + sized);
    json::lemma_key_place_is(entries, "warm_shards"@, 5 + told + sized);
    json::lemma_key_place_is(entries, "field_count"@, 6 + told + sized);
    json::lemma_key_place_is(entries, "fields"@, 7 + told + sized);
}

/// What a cluster tells of a node is what the node tells: who it is, what it holds, and how much.
pub proof fn law_a_node_is_told_as_it_tells(answer: JsonV)
    ensures
        ({
            let detail = cluster_catalog::node_detail(answer);
            &&& answer.get("node_id"@) matches Some(JsonV::Text(id)) ==> detail.get("node_id"@) == Some(
                JsonV::Text(id),
            )
            &&& !(answer.get("node_id"@) matches Some(JsonV::Text(_))) ==> detail.get("node_id"@)
                == Some(JsonV::Text("unknown"@))
            &&& answer.get("node_name"@) matches Some(JsonV::Text(own)) ==> detail.get("node_name"@)
                == Some(JsonV::Text(own))
            &&& !(answer.get("node_name"@) matches Some(JsonV::Text(_))) ==> detail.get(
                "node_name"@,
            ) is None
            &&& answer.get("indexes"@) is Some ==> detail.get("indexes"@) == answer.get("indexes"@)
            &&& answer.get("indexes"@) is None ==> detail.get("indexes"@) == Some(
                JsonV::Array(Seq::empty()),
            )
            &&& search_laws::is_count(
                detail.get("total_indexes"@),
                broadcast_laws::whole_under(answer, "total_indexes"@),
            )
            &&& search_laws::is_count(
                detail.get("total_shards"@),
                broadcast_laws::whole_under(answer, "total_shards"@),
            )
        }),
{
    reveal_strlit("node_id");
    reveal_strlit("node_name");
    reveal_strlit("indexes");
    reveal_strlit("total_indexes");
    reveal_strlit("total_shards");
    assert("node_id"@.len() == 7 && "node_name"@.len() == 9 && "indexes"@.len() == 7);
    assert("total_indexes"@.len() == 13 && "total_shards"@.len() == 12);
    assert("node_id"@[0] == 'n' && "indexes"@[0] == 'i');
    let detail = cluster_catalog::node_detail(answer);
    let entries = detail->Object_0;
    let named: int = if answer.get("node_name"@) matches Some(JsonV::Text(_)) {
        1
    } else {
        0
    };
    json::lemma_key_place_is(entries, "node_id"@, 0);
    if named == 1 {
        json::lemma_key_place_is(entries, "node_name"@, 1);
    } else {
        json::lemma_key_place_is(entries, "node_name"@, entries.len() as int);
    }
    json::lemma_key_place_is(entries, "indexes"@, 1 + named);
    json::lemma_key_place_is(entries, "total_indexes"@, 2 + named);
    json::lemma_key_place_is(entries, "total_shards"@, 3 + named);
}

/// A cluster's answer holds its indexes and its nodes, and counts them and those that failed.
pub proof fn law_a_cluster_counts_its_nodes(indexes: Seq<JsonV>, nodes: Seq<JsonV>, failed: nat)
    ensures
        ({
            let body = cluster_catalog::cluster_body(indexes, nodes, failed);
            &&& body.get("indexes"@) == Some(JsonV::Array(indexes))
            &&& search_laws::is_count(body.get("total_indexes"@), indexes.len())
            &&& search_laws::is_count(body.get("nodes_contacted"@), nodes.len())
            &&& search_laws::is_count(body.get("nodes_failed"@), failed)
            &&& body.get("nodes"@) == Some(JsonV::Array(nodes))
        }),
{
    reveal_strlit("indexes");
    reveal_strlit("total_indexes");
    reveal_strlit("nodes_contacted");
    reveal_strlit("nodes_failed");
    reveal_strlit("nodes");
    assert("indexes"@.len() == 7 && "total_indexes"@.len() == 13 && "nodes_contacted"@.len() == 15);
    assert("nodes_failed"@.len() == 12 && "nodes"@.len() == 5);
    let entries = cluster_catalog::cluster_body(indexes, nodes, failed)->Object_0;
    json::lemma_key_place_is(entries, "indexes"@, 0);
    json::lemma_key_place_is(entries, "total_indexes"@, 1);
    json::lemma_key_place_is(entries, "nodes_contacted"@, 2);
    json::lemma_key_place_is(entries, "nodes_failed"@, 3);
    json::lemma_key_place_is(entries, "nodes"@, 4);
}

// ---------------------------------------------------------------------------
// Descriptions
// ---------------------------------------------------------------------------

/// A described field tells its name, its type, how it is declared, and whether it can be searched and
/// sorted by; a shadow can always be searched, and the key is told under the name that documents bear
/// it by.
pub proof fn law_a_field_is_described_as_declared(
    name: Seq<char>,
    field: FieldV,
    document_key: Seq<char>,
    searchable: bool,
    sortable: bool,
)
    ensures
        ({
            let told = describe::field_entry(name, field, document_key, searchable, sortable);
            &&& told.get("name"@) == Some(JsonV::Text(name))
            &&& told.get("type"@) == Some(JsonV::Text(schema::listed_type(field.field_type)))
            &&& told.get("indexed"@) == Some(JsonV::Bool(field.indexed))
            &&& told.get("stored"@) == Some(JsonV::Bool(field.stored))
            &&& told.get("fast"@) == Some(JsonV::Bool(schema::declared_fast(field)))
            &&& told.get("shadow"@) == Some(JsonV::Bool(field.is_shadow))
            &&& field.is_shadow ==> told.get("searchable"@) == Some(JsonV::Bool(true))
            &&& !field.is_shadow ==> told.get("searchable"@) == Some(JsonV::Bool(searchable))
            &&& told.get("sortable"@) == Some(JsonV::Bool(sortable))
            &&& is_text_or_absent(
                told.get("returned_as"@),
                if name == "id"@ && document_key != "id"@ {
                    Some(document_key)
                } else {
                    None
                },
            )
            &&& is_text_or_absent(told.get("description"@), field.description)
            &&& is_text_or_absent(told.get("tokenizer"@), field.tokenizer)
        }),
{
    reveal_strlit("name");
    reveal_strlit("type");
    reveal_strlit("indexed");
    reveal_strlit("stored");
    reveal_strlit("fast");
    reveal_strlit("shadow");
    reveal_strlit("searchable");
    reveal_strlit("sortable");
    reveal_strlit("returned_as");
    reveal_strlit("description");
    reveal_strlit("tokenizer");
    assert("name"@.len() == 4 && "type"@.len() == 4 && "indexed"@.len() == 7 && "stored"@.len() == 6);
    assert("fast"@.len() == 4 && "shadow"@.len() == 6 && "searchable"@.len() == 10);
    assert("sortable"@.len() == 8 && "returned_as"@.len() == 11 && "description"@.len() == 11);
    assert("tokenizer"@.len() == 9);
    assert("name"@[0] == 'n' && "type"@[0] == 't' && "fast"@[0] == 'f');
    assert("stored"@[1] == 't' && "shadow"@[1] == 'h');
    assert("returned_as"@[0] == 'r' && "description"@[0] == 'd');
    let told = describe::field_entry(name, field, document_key, searchable, sortable);
    let entries = told->Object_0;
    let renamed: int = if name == "id"@ && document_key != "id"@ {
        1
    } else {
        0
    };
    let described: int = if field.description is Some {
        1
    } else {
        0
    };
    json::lemma_key_place_is(entries, "name"@, 0);
    json::lemma_key_place_is(entries, "type"@, 1);
    json::lemma_key_place_is(entries, "indexed"@, 2);
    json::lemma_key_place_is(entries, "stored"@, 3);
    json::lemma_key_place_is(entries, "fast"@, 4);
    json::lemma_key_place_is(entries, "shadow"@, 5);
    json::lemma_key_place_is(entries, "searchable"@, 6);
    json::lemma_key_place_is(entries, "sortable"@, 7);
    if renamed == 1 {
        json::lemma_key_place_is(entries, "returned_as"@, 8);
    } else {
        json::lemma_key_place_is(entries, "returned_as"@, entries.len() as int);
    }
    if field.description is Some {
        json::lemma_key_place_is(entries, "description"@, 8 + renamed);
    } else {
        json::lemma_key_place_is(entries, "description"@, entries.len() as int);
    }
    if field.tokenizer is Some {
        json::lemma_key_place_is(entries, "tokenizer"@, 8 + renamed + described);
    } else {
        json::lemma_key_place_is(entries, "tokenizer"@, entries.len() as int);
    }
}

/// A schema is told under its index's name, with its description where it has one, and all its fields.
pub proof fn law_a_schema_tells_its_fields(
    index: Seq<char>,
    description: Option<Seq<char>>,
    fields: Seq<JsonV>,
)
    ensures
        ({
            let body = describe::schema_body(index, description, fields);
            &&& body.get("name"@) == Some(JsonV::Text(index))
            &&& is_text_or_absent(body.get("description"@), description)
            &&& search_laws::is_count(body.get("field_count"@), fields.len())
            &&& body.get("fields"@) == Some(JsonV::Array(fields))
        }),
{
    lemma_index_names();
    let entries = describe::schema_body(index, description, fields)->Object_0;
    let told: int = if description is Some {
        1
    } else {
        0
    };
    json::lemma_key_place_is(entries, "name"@, 0);
    if description is Some {
        json::lemma_key_place_is(entries, "description"@, 1);
    } else {
        json::lemma_key_place_is(entries, "description"@, entries.len() as int);
    }
    json::lemma_key_place_is(entries, "field_count"@, 1 + told);
    json::lemma_key_place_is(entries, "fields"@, 2 + told);
}

/// A checked query is told with the verdict on it; one that could not be checked is neither valid nor
/// not, and is told with a note.
pub proof fn law_a_query_is_told_with_its_verdict(
    index: Seq<char>,
    query: Seq<char>,
    engine_query: Seq<char>,
    verdict: Option<QueryVerdict>,
)
    ensures
        ({
            let body = describe::validation_body(index, query, engine_query, verdict);
            &&& body.get("index"@) == Some(JsonV::Text(index))
            &&& body.get("query"@) == Some(JsonV::Text(query))
            &&& verdict matches Some(v) ==> {
                &&& body.get("valid"@) == Some(JsonV::Bool(v.valid))
                &&& body.get("normalized_query"@) == Some(JsonV::Text(v.normalized_query@))
                &&& broadcast_laws::lists_texts(
                    body.get("syntax_errors"@),
                    text::texts(v.syntax_errors@),
                )
                &&& broadcast_laws::lists_texts(body.get("discarded"@), text::texts(v.discarded@))
                &&& body.get("note"@) is None
            }
            &&& verdict is None ==> {
                &&& body.get("valid"@) == Some(JsonV::Null)
                &&& body.get("normalized_query"@) == Some(JsonV::Text(engine_query))
                &&& broadcast_laws::lists_texts(body.get("syntax_errors"@), Seq::empty())
                &&& broadcast_laws::lists_texts(body.get("discarded"@), Seq::empty())
                &&& body.get("note"@) is Some
            }
        }),
{
    reveal_strlit("index");
    reveal_strlit("query");
    reveal_strlit("valid");
    reveal_strlit("normalized_query");
    reveal_strlit("syntax_errors");
    reveal_strlit("discarded");
    reveal_strlit("note");
    assert("index"@.len() == 5 && "query"@.len() == 5 && "valid"@.len() == 5 && "note"@.len() == 4);
    assert("normalized_query"@.len() == 16 && "syntax_errors"@.len() == 13 && "discarded"@.len() == 9);
    assert("index"@[0] == 'i' && "query"@[0] == 'q' && "valid"@[0] == 'v');
    let entries = describe::validation_body(index, query, engine_query, verdict)->Object_0;
    json::lemma_key_place_is(entries, "index"@, 0);
    json::lemma_key_place_is(entries, "query"@, 1);
    json::lemma_key_place_is(entries, "valid"@, 2);
    json::lemma_key_place_is(entries, "normalized_query"@, 3);
    json::lemma_key_place_is(entries, "syntax_errors"@, 4);
    json::lemma_key_place_is(entries, "discarded"@, 5);
    json::lemma_key_place_is(entries, "note"@, 6);
}

// ---------------------------------------------------------------------------
// Listings and identities
// ---------------------------------------------------------------------------

/// A listing holds its indexes and counts them, and tells the node and how long it took.
pub proof fn law_a_listing_tells_its_node(
    indexes: Seq<JsonV>,
    node_id: u128,
    node_name: Seq<char>,
    shards: nat,
    took_ms: u64,
)
    ensures
        ({
            let body = catalog::listing_body(indexes, node_id, node_name, shards, took_ms);
            &&& body.get("indexes"@) == Some(JsonV::Array(indexes))
            &&& search_laws::is_count(body.get("total_indexes"@), indexes.len())
            &&& body.get("node_id"@) == Some(JsonV::Text(text::uuid_chars(node_id)))
            &&& body.get("node_name"@) == Some(JsonV::Text(node_name))
            &&& search_laws::is_count(body.get("total_shards"@), shards)
            &&& search_laws::is_count(body.get("took_ms"@), took_ms as nat)
        }),
        ({
            let body = catalog::listing_without_shards(node_id, node_name);
            &&& body.get("indexes"@) == Some(JsonV::Array(Seq::empty()))
            &&& search_laws::is_count(body.get("total_indexes"@), 0)
            &&& body.get("node_id"@) == Some(JsonV::Text(text::uuid_chars(node_id)))
            &&& body.get("node_name"@) == Some(JsonV::Text(node_name))
            &&& search_laws::is_count(body.get("total_shards"@), 0)
        }),
        ({
            let body = describe::identity_body(node_id, node_name, shards);
            &&& body.get("node_id"@) == Some(JsonV::Text(text::uuid_chars(node_id)))
            &&& body.get("node_name"@) == Some(JsonV::Text(node_name))
            &&& search_laws::is_count(body.get("total_shards"@), shards)
        }),
{
    reveal_strlit("indexes");
    reveal_strlit("total_indexes");
    reveal_strlit("node_id");
    reveal_strlit("node_name");
    reveal_strlit("total_shards");
    reveal_strlit("took_ms");
    assert("indexes"@.len() == 7 && "total_indexes"@.len() == 13 && "node_id"@.len() == 7);
    assert("node_name"@.len() == 9 && "total_shards"@.len() == 12 && "took_ms"@.len() == 7);
    assert("indexes"@[0] == 'i' && "node_id"@[0] == 'n' && "took_ms"@[0] == 't');
    let one = catalog::listing_body(indexes, node_id, node_name, shards, took_ms)->Object_0;
    json::lemma_key_place_is(one, "indexes"@, 0);
    json::lemma_key_place_is(one, "total_indexes"@, 1);
    json::lemma_key_place_is(one, "node_id"@, 2);
    json::lemma_key_place_is(one, "node_name"@, 3);
    json::lemma_key_place_is(one, "total_shards"@, 4);
    json::lemma_key_place_is(one, "took_ms"@, 5);
    let two = catalog::listing_without_shards(node_id, node_name)->Object_0;
    json::lemma_key_place_is(two, "indexes"@, 0);
    json::lemma_key_place_is(two, "total_indexes"@, 1);
    json::lemma_key_place_is(two, "node_id"@, 2);
    json::lemma_key_place_is(two, "node_name"@, 3);
    json::lemma_key_place_is(two, "total_shards"@, 4);
    let three = describe::identity_body(node_id, node_name, shards)->Object_0;
    json::lemma_key_place_is(three, "node_id"@, 0);
    json::lemma_key_place_is(three, "node_name"@, 1);
    json::lemma_key_place_is(three, "total_shards"@, 2);
}

/// A new index is acknowledged by its name and with its fields.
pub proof fn law_a_new_index_is_acknowledged(index: Seq<char>, fields: Seq<Seq<char>>)
    ensures
        ({
            let body = describe::created_body(index, fields);
            &&& body.get("acknowledged"@) == Some(JsonV::Bool(true))
            &&& body.get("index"@) == Some(JsonV::Text(index))
            &&& broadcast_laws::lists_texts(body.get("field_names"@), fields)
        }),
{
    reveal_strlit("acknowledged");
    reveal_strlit("index");
    reveal_strlit("field_names");
    assert("acknowledged"@.len() == 12 && "index"@.len() == 5 && "field_names"@.len() == 11);
    let entries = describe::created_body(index, fields)->Object_0;
    json::lemma_key_place_is(entries, "acknowledged"@, 0);
    json::lemma_key_place_is(entries, "index"@, 1);
    json::lemma_key_place_is(entries, "field_names"@, 2);
}

/// Every schema declares its key: one that does not gets it as a text that is searched and stored, and
/// nothing else of it changes.
pub proof fn law_every_schema_declares_its_key(known: SchemaV, name: Seq<char>)
    ensures
        known.field("id"@) is Some ==> describe::with_document_key(known) == known,
        known.field("id"@) is None ==> (describe::with_document_key(known).field("id"@) matches Some(key)
            && key.field_type == TantivyFieldType::Text && key.indexed && key.stored && !key.is_shadow),
        name != "id"@ ==> describe::with_document_key(known).field(name) == known.field(name),
        describe::with_document_key(known).routing_field == known.routing_field,
        describe::with_document_key(known).description == known.description,
{
    let put = schema::plain_field("id"@, TantivyFieldType::Text);
    json::lemma_with_entry_read_back(known.fields, "id"@, put, name);
}

/// The listings of a cluster are those of its nodes, one node after the other.
pub proof fn law_a_cluster_lists_what_its_nodes_list(answers: Seq<JsonV>)
    ensures
        cluster_catalog::listings_in(answers) == answers.map_values(
            |answer: JsonV|
                match answer.get("indexes"@) {
                    Some(JsonV::Array(items)) => items,
                    _ => Seq::empty(),
                },
        ).flatten(),
    decreases answers.len(),
{
    let held = |answer: JsonV|
        match answer.get("indexes"@) {
            Some(JsonV::Array(items)) => items,
            _ => Seq::empty(),
        };
    let lists = answers.map_values(held);
    lists.lemma_flatten_and_flatten_alt_are_equivalent();
    if answers.len() > 0 {
        let rest = answers.drop_last();
        law_a_cluster_lists_what_its_nodes_list(rest);
        let before = rest.map_values(held);
        before.lemma_flatten_and_flatten_alt_are_equivalent();
        assert(lists.drop_last() =~= before);
        assert(lists.last() == held(answers.last()));
    } else {
        assert(lists =~= Seq::empty());
    }
}

/// A field that a node lists is added as it is where it is not known yet; one that is known keeps all
/// that it says but for what the node adds to it. Nothing without a name is added.
pub proof fn law_a_listed_field_is_added_once(
    fields: Seq<(Seq<char>, JsonV)>,
    field: JsonV,
    name: Seq<char>,
    key: Seq<char>,
)
    ensures
        name_in(field) is None ==> cluster_catalog::fields_with(fields, field) == fields,
        name_in(field) == Some(name) && json::value_under(fields, name) is None ==> json::value_under(
            cluster_catalog::fields_with(fields, field),
            name,
        ) == Some(field),
        name_in(field) == Some(name) ==> (json::value_under(fields, name) matches Some(known)
            ==> known is Object && key != "searchable"@ && key != "sortable"@ ==> (json::value_under(
            cluster_catalog::fields_with(fields, field),
            name,
        ) matches Some(now) && now.get(key) == known.get(key))),
        name_in(field) != Some(name) ==> json::value_under(
            cluster_catalog::fields_with(fields, field),
            name,
        ) == json::value_under(fields, name),
{
    if let Some(own) = name_in(field) {
        match json::value_under(fields, own) {
            Some(known) => {
                let one = cluster_catalog::with_flag_of(known, field, "searchable"@);
                let two = cluster_catalog::with_flag_of(one, field, "sortable"@);
                json::lemma_with_entry_read_back(fields, own, two, name);
                if known is Object {
                    json::lemma_read_back(known, "searchable"@, JsonV::Bool(true), key);
                    json::lemma_read_back(one, "sortable"@, JsonV::Bool(true), key);
                }
            },
            None => {
                json::lemma_with_entry_read_back(fields, own, field, name);
            },
        }
    }
}

/// A catalog has every entry once, and its entries stand by their names as in a dictionary, the key
/// first where it comes first.
pub proof fn law_a_catalog_stands_by_name<T>(
    values: Seq<T>,
    entries: Seq<(Seq<char>, T)>,
    id_first: bool,
    listed: Seq<Seq<char>>,
    order: Seq<int>,
    i: int,
    j: int,
)
    requires
        catalog::is_in_name_order(values, entries, id_first, listed, order),
        0 <= i < j < values.len(),
    ensures
        values.len() == entries.len(),
        order.no_duplicates(),
        0 <= order[i] < entries.len() && 0 <= order[j] < entries.len(),
        values[i] == entries[order[i]].1 && values[j] == entries[order[j]].1,
        id_first && entries[order[j]].0 == "id"@ ==> entries[order[i]].0 == "id"@,
        !(id_first && entries[order[i]].0 == "id"@) ==> entries[order[i]].0 == entries[order[j]].0
            || text::comes_before(entries[order[i]].0, entries[order[j]].0),
{
    let all = catalog::names_of(entries);
    law_a_listing_stands_as_in_a_dictionary(listed, all, id_first, order, i, j);
    assert(listed[i] == all[order[i]] && listed[j] == all[order[j]]);
}

} // verus!
