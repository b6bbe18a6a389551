//! The listing of a cluster's indexes, from the listings of its nodes.

use vstd::prelude::*;
use vstd::string::*;
use crate::{broadcast, catalog, describe, errors, json, search};
use crate::broadcast::{number_at, text_at};
use crate::catalog::values_by_name;
use crate::describe::push_text;
use crate::json::{Json, JsonV, entry, find_key, put_entry};
use crate::text::same_text;

verus! {

// ---------------------------------------------------------------------------
// One index
// ---------------------------------------------------------------------------

/// What is counted of an index.
#[derive(Clone, Copy, Debug, PartialEq, Eq)]
pub struct IndexCounts {
    pub document_count: u64,
    pub index_size_bytes: u64,
    pub memory_bytes: u64,
    pub data_size_bytes: u64,
    pub total_size_bytes: u64,
    pub shard_count: u64,
    pub warm_shards: u64,
}

/// What the nodes of a cluster list of one index, put together.
pub struct IndexStats {
    pub description: Option<String>,
    pub counts: IndexCounts,
    /// The fields by name.
    pub fields: Vec<(String, Json)>,
}

/// What the nodes of a cluster list of one index, as a value of the model.
pub struct IndexStatsV {
    pub description: Option<Seq<char>>,
    pub counts: IndexCounts,
    pub fields: Seq<(Seq<char>, JsonV)>,
}

impl View for IndexStats {
    type V = IndexStatsV;

    open spec fn view(&self) -> IndexStatsV {
        IndexStatsV {
            description: errors::opt_text(self.description),
            counts: self.counts,
            fields: json::entry_models(self.fields@),
        }
    }
}

/// An index that no node has listed yet.
pub open spec fn unlisted_index() -> IndexStatsV {
    IndexStatsV {
        description: None,
        counts: IndexCounts {
            document_count: 0,
            index_size_bytes: 0,
            memory_bytes: 0,
            data_size_bytes: 0,
            total_size_bytes: 0,
            shard_count: 0,
            warm_shards: 0,
        },
        fields: Seq::empty(),
    }
}

/// The number that a listing gives under a key, none counted as nothing.
pub open spec fn count_under(listed: JsonV, key: Seq<char>) -> nat {
    broadcast::or_zero(broadcast::number_of(listed.get(key)))
}

/// Counts with those of one more listing.
pub open spec fn counts_with(counts: IndexCounts, listed: JsonV) -> IndexCounts {
    IndexCounts {
        document_count: (counts.document_count + count_under(listed, "document_count"@)) as u64,
        index_size_bytes: (counts.index_size_bytes + count_under(
            listed,
            "index_size_bytes"@,
        )) as u64,
        memory_bytes: (counts.memory_bytes + count_under(listed, "memory_bytes"@)) as u64,
        data_size_bytes: (counts.data_size_bytes + count_under(listed, "data_size_bytes"@)) as u64,
        total_size_bytes: (counts.total_size_bytes + count_under(
            listed,
            "total_size_bytes"@,
        )) as u64,
        shard_count: (counts.shard_count + count_under(listed, "shard_count"@)) as u64,
        warm_shards: (counts.warm_shards + count_under(listed, "warm_shards"@)) as u64,
    }
}

/// Whether a field has a flag set.
pub open spec fn flag_set(field: JsonV, flag: Seq<char>) -> bool {
    match field.get(flag) {
        Some(value) => value.as_bool() == Some(true),
        None => false,
    }
}

/// A field with a flag set where another listing sets it.
pub open spec fn with_flag_of(field: JsonV, other: JsonV, flag: Seq<char>) -> JsonV {
    if flag_set(other, flag) {
        field.with(flag, JsonV::Bool(true))
    } else {
        field
    }
}

/// The fields of an index with one more field listed.
///
/// A field is searchable in the cluster where any node can search it, and sortable where any node
/// can sort it: a search asks every node, and each answers from what it has.
pub open spec fn fields_with(fields: Seq<(Seq<char>, JsonV)>, field: JsonV) -> Seq<
    (Seq<char>, JsonV),
> {
    match broadcast::text_of_value(field.get("name"@)) {
        None => fields,
        Some(name) => match json::value_under(fields, name) {
            Some(known) => json::with_entry(
                fields,
                name,
                with_flag_of(with_flag_of(known, field, "searchable"@), field, "sortable"@),
            ),
            None => json::with_entry(fields, name, field),
        },
    }
}

/// The fields of an index with more fields listed.
pub open spec fn fields_with_all(fields: Seq<(Seq<char>, JsonV)>, more: Seq<JsonV>) -> Seq<
    (Seq<char>, JsonV),
>
    decreases more.len(),
{
    if more.len() == 0 {
        fields
    } else {
        fields_with(fields_with_all(fields, more.drop_last()), more.last())
    }
}

/// What is known of an index with one more listing of it.
pub open spec fn stats_with(before: IndexStatsV, listed: JsonV) -> IndexStatsV {
    IndexStatsV {
        description: if before.description is Some {
            before.description
        } else {
            broadcast::text_of_value(listed.get("description"@))
        },
        counts: counts_with(before.counts, listed),
        fields: match broadcast::items_of(listed.get("fields"@)) {
            Some(more) => fields_with_all(before.fields, more),
            None => before.fields,
        },
    }
}

/// Whether a field has a flag set.
fn has_flag(field: &Json, flag: &str) -> (set: bool)
    ensures
        set == flag_set(field@, flag@),
{
    match field.get(flag) {
        Some(value) => match value.as_bool() {
            Some(truth) => truth,
            None => false,
        },
        None => false,
    }
}

/// Adds one listed field.
fn add_field(fields: &mut Vec<(String, Json)>, field: &Json)
    ensures
        json::entry_models(final(fields)@) == fields_with(json::entry_models(old(fields)@), field@),
{
    let name: &String = match text_at(field, "name") {
        Some(name) => name,
        None => {
            return;
        },
    };
    let ghost before = json::entry_models(fields@);
    proof {
        json::lemma_key_place(before, name@);
    }
    let place: usize = find_key(fields, name.as_str());
    if place < fields.len() {
        let mut known: Json = fields[place].1.clone();
        assert(known@ == before[place as int].1);
        let yes: Json = Json::Bool(true);
        let also: Json = Json::Bool(true);
        proof {
            json::lemma_model_by_parts(yes);
            json::lemma_model_by_parts(also);
        }
        if has_flag(field, "searchable") {
            known.put("searchable", yes);
        }
        if has_flag(field, "sortable") {
            known.put("sortable", also);
        }
        put_entry(fields, name.as_str(), known);
    } else {
        put_entry(fields, name.as_str(), field.clone());
    }
}

/// The number that a listing gives under a key, none counted as nothing.
fn count_at(listed: &Json, key: &str) -> (count: u64)
    ensures
        count == count_under(listed@, key@),
{
    match number_at(listed, key) {
        Some(n) => n,
        None => 0,
    }
}

/// Whether counts can take those of one more listing.
pub open spec fn counts_fit(counts: IndexCounts, listed: JsonV) -> bool {
    &&& counts.document_count + count_under(listed, "document_count"@) <= u64::MAX
    &&& counts.index_size_bytes + count_under(listed, "index_size_bytes"@) <= u64::MAX
    &&& counts.memory_bytes + count_under(listed, "memory_bytes"@) <= u64::MAX
    &&& counts.data_size_bytes + count_under(listed, "data_size_bytes"@) <= u64::MAX
    &&& counts.total_size_bytes + count_under(listed, "total_size_bytes"@) <= u64::MAX
    &&& counts.shard_count + count_under(listed, "shard_count"@) <= u64::MAX
    &&& counts.warm_shards + count_under(listed, "warm_shards"@) <= u64::MAX
}

impl IndexStats {
    /// An index that no node has listed yet.
    fn unlisted() -> (stats: IndexStats)
        ensures
            stats@ == unlisted_index(),
    {
        let stats = IndexStats {
            description: None,
            counts: IndexCounts {
                document_count: 0,
                index_size_bytes: 0,
                memory_bytes: 0,
                data_size_bytes: 0,
                total_size_bytes: 0,
                shard_count: 0,
                warm_shards: 0,
            },
            fields: Vec::new(),
        };
        assert(json::entry_models(stats.fields@) =~= Seq::empty());
        stats
    }

    /// Adds one more listing of the index.
    fn take_listing(&mut self, listed: &Json)
        requires
            counts_fit(old(self).counts, listed@),
        ensures
            final(self)@ == stats_with(old(self)@, listed@),
    {
        self.counts = IndexCounts {
            document_count: self.counts.document_count + count_at(listed, "document_count"),
            index_size_bytes: self.counts.index_size_bytes + count_at(listed, "index_size_bytes"),
            memory_bytes: self.counts.memory_bytes + count_at(listed, "memory_bytes"),
            data_size_bytes: self.counts.data_size_bytes + count_at(listed, "data_size_bytes"),
            total_size_bytes: self.counts.total_size_bytes + count_at(listed, "total_size_bytes"),
            shard_count: self.counts.shard_count + count_at(listed, "shard_count"),
            warm_shards: self.counts.warm_shards + count_at(listed, "warm_shards"),
        };
        if self.description.is_none() {
            self.description = match text_at(listed, "description") {
                Some(text) => Some(text.clone()),
                None => None,
            };
        }
        if let Some(value) = listed.get("fields") {
            if let Some(more) = value.as_array() {
                let ghost start = json::entry_models(self.fields@);
                let ghost all = json::models(more@);
                let ghost counts = self.counts;
                let ghost description = self.description;
                let mut i: usize = 0;
                while i < more.len()
                    invariant
                        i <= more.len(),
                        all == json::models(more@),
                        self.counts == counts,
                        self.description == description,
                        json::entry_models(self.fields@) == fields_with_all(start, all.take(i as int)),
                    decreases more.len() - i,
                {
                    proof {
                        assert(all.take(i + 1).drop_last() =~= all.take(i as int));
                        assert(all.take(i + 1).last() == more@[i as int]@);
                    }
                    add_field(&mut self.fields, &more[i]);
                    i += 1;
                }
                assert(all.take(more.len() as int) =~= all);
            }
        }
    }
}

// ---------------------------------------------------------------------------
// All indexes
// ---------------------------------------------------------------------------

/// The name that a listing gives its index, none counted as empty.
pub open spec fn listed_name(listed: JsonV) -> Seq<char> {
    match broadcast::text_of_value(listed.get("name"@)) {
        Some(name) => name,
        None => Seq::empty(),
    }
}

/// What is known of each index, with one more listing. One that names no index is passed over.
pub open spec fn stats_by_index_with(
    before: Seq<(Seq<char>, IndexStatsV)>,
    listed: JsonV,
) -> Seq<(Seq<char>, IndexStatsV)> {
    let name = listed_name(listed);
    if name.len() == 0 {
        before
    } else {
        json::with_entry(
            before,
            name,
            stats_with(
                match json::value_under(before, name) {
                    Some(known) => known,
                    None => unlisted_index(),
                },
                listed,
            ),
        )
    }
}

/// What is known of each index from some listings.
pub open spec fn stats_by_index(listings: Seq<JsonV>) -> Seq<(Seq<char>, IndexStatsV)>
    decreases listings.len(),
{
    if listings.len() == 0 {
        Seq::empty()
    } else {
        stats_by_index_with(stats_by_index(listings.drop_last()), listings.last())
    }
}

/// The listings of indexes in the answers of some nodes.
pub open spec fn listings_in(answers: Seq<JsonV>) -> Seq<JsonV>
    decreases answers.len(),
{
    if answers.len() == 0 {
        Seq::empty()
    } else {
        listings_in(answers.drop_last()) + match broadcast::items_of(answers.last().get("indexes"@)) {
            Some(items) => items,
            None => Seq::empty(),
        }
    }
}

/// How much some listings count under a key.
pub open spec fn counted(listings: Seq<JsonV>, key: Seq<char>) -> nat
    decreases listings.len(),
{
    if listings.len() == 0 {
        0
    } else {
        counted(listings.drop_last(), key) + count_under(listings.last(), key)
    }
}

/// Whether what some listings count fits machine words.
pub open spec fn listings_fit(listings: Seq<JsonV>) -> bool {
    &&& counted(listings, "document_count"@) <= u64::MAX
    &&& counted(listings, "index_size_bytes"@) <= u64::MAX
    &&& counted(listings, "memory_bytes"@) <= u64::MAX
    &&& counted(listings, "data_size_bytes"@) <= u64::MAX
    &&& counted(listings, "total_size_bytes"@) <= u64::MAX
    &&& counted(listings, "shard_count"@) <= u64::MAX
    &&& counted(listings, "warm_shards"@) <= u64::MAX
}

/// Whether counts are at most those of some listings altogether.
pub open spec fn counts_bounded(counts: IndexCounts, listings: Seq<JsonV>) -> bool {
    &&& counts.document_count <= counted(listings, "document_count"@)
    &&& counts.index_size_bytes <= counted(listings, "index_size_bytes"@)
    &&& counts.memory_bytes <= counted(listings, "memory_bytes"@)
    &&& counts.data_size_bytes <= counted(listings, "data_size_bytes"@)
    &&& counts.total_size_bytes <= counted(listings, "total_size_bytes"@)
    &&& counts.shard_count <= counted(listings, "shard_count"@)
    &&& counts.warm_shards <= counted(listings, "warm_shards"@)
}

/// What the first listings count is at most what all of them count.
proof fn lemma_counted_grows(listings: Seq<JsonV>, count: int, key: Seq<char>)
    requires
        0 <= count <= listings.len(),
    ensures
        counted(listings.take(count), key) <= counted(listings, key),
    decreases listings.len(),
{
    if count < listings.len() {
        let shorter = listings.drop_last();
        lemma_counted_grows(shorter, count, key);
        assert(shorter.take(count) =~= listings.take(count));
    } else {
        assert(listings.take(count) =~= listings);
    }
}

/// Where all listings fit, the first of them do.
proof fn lemma_first_listings_fit(listings: Seq<JsonV>, count: int)
    requires
        0 <= count <= listings.len(),
        listings_fit(listings),
    ensures
        listings_fit(listings.take(count)),
{
    lemma_counted_grows(listings, count, "document_count"@);
    lemma_counted_grows(listings, count, "index_size_bytes"@);
    lemma_counted_grows(listings, count, "memory_bytes"@);
    lemma_counted_grows(listings, count, "data_size_bytes"@);
    lemma_counted_grows(listings, count, "total_size_bytes"@);
    lemma_counted_grows(listings, count, "shard_count"@);
    lemma_counted_grows(listings, count, "warm_shards"@);
}

/// No index counts more than all listings do.
proof fn lemma_stats_are_bounded(listings: Seq<JsonV>)
    requires
        listings_fit(listings),
    ensures
        forall|i: int|
            0 <= i < stats_by_index(listings).len() ==> counts_bounded(
                (#[trigger] stats_by_index(listings)[i]).1.counts,
                listings,
            ),
    decreases listings.len(),
{
    if listings.len() > 0 {
        let shorter = listings.drop_last();
        assert(shorter =~= listings.take(listings.len() - 1));
        lemma_first_listings_fit(listings, listings.len() - 1);
        lemma_stats_are_bounded(shorter);
        let before = stats_by_index(shorter);
        let listed = listings.last();
        let name = listed_name(listed);
        json::lemma_key_place(before, name);
        let after = stats_by_index(listings);
        assert forall|i: int| 0 <= i < after.len() implies counts_bounded(
            (#[trigger] after[i]).1.counts,
            listings,
        ) by {
            if name.len() == 0 {
                assert(after[i] == before[i]);
            } else {
                let place = json::key_place(before, name);
                if i < before.len() && i != place {
                    assert(after[i] == before[i]);
                } else if i < before.len() {
                    assert(counts_bounded(before[i].1.counts, shorter));
                }
            }
        }
    }
}

/// Stats by index, as values of the model.
pub open spec fn stats_models(stats: Seq<(String, IndexStats)>) -> Seq<(Seq<char>, IndexStatsV)> {
    stats.map_values(|entry: (String, IndexStats)| (entry.0@, entry.1@))
}

/// Finds what is known of an index.
fn find_stats(stats: &Vec<(String, IndexStats)>, name: &str) -> (place: usize)
    ensures
        place == json::key_place(stats_models(stats@), name@),
        place <= stats@.len(),
{
    let ghost all = stats_models(stats@);
    let mut i: usize = 0;
    while i < stats.len()
        invariant
            i <= stats.len(),
            all == stats_models(stats@),
            forall|k: int| 0 <= k < i ==> #[trigger] all[k].0 != name@,
        decreases stats.len() - i,
    {
        if same_text(stats[i].0.as_str(), name) {
            proof {
                assert(all[i as int].0 == name@);
                json::lemma_key_place(all, name@);
                let place = json::key_place(all, name@);
                if place < i {
                    assert(all[place].0 == name@);
                }
            }
            return i;
        }
        assert(all[i as int].0 == stats@[i as int].0@);
        i += 1;
    }
    proof {
        json::lemma_key_place(all, name@);
        let place = json::key_place(all, name@);
        if place < all.len() {
            assert(all[place].0 == name@);
        }
    }
    stats.len()
}

/// Adds one more listing to what is known of each index.
fn add_listing(stats: &mut Vec<(String, IndexStats)>, listed: &Json)
    requires
        forall|i: int|
            0 <= i < old(stats)@.len() ==> counts_fit(
                (#[trigger] stats_models(old(stats)@)[i]).1.counts,
                listed@,
            ),
    ensures
        stats_models(final(stats)@) == stats_by_index_with(stats_models(old(stats)@), listed@),
{
    let ghost before = stats_models(stats@);
    let name: &String = match text_at(listed, "name") {
        Some(name) => name,
        None => {
            return;
        },
    };
    if same_text(name.as_str(), "") {
        proof {
            reveal_strlit("");
        }
        return;
    }
    proof {
        reveal_strlit("");
        if name@.len() == 0 {
            assert(name@ =~= ""@);
        }
        json::lemma_key_place(before, name@);
    }
    let place: usize = find_stats(stats, name.as_str());
    if place < stats.len() {
        let ghost given = stats@;
        assert(before[place as int].1 == given[place as int].1@);
        stats[place].1.take_listing(listed);
        assert(stats_models(stats@) =~= before.update(
            place as int,
            (before[place as int].0, stats_with(before[place as int].1, listed@)),
        ));
    } else {
        let mut fresh: IndexStats = IndexStats::unlisted();
        fresh.take_listing(listed);
        stats.push((name.clone(), fresh));
        assert(stats_models(stats@) =~= before.push(
            (name@, stats_with(unlisted_index(), listed@)),
        ));
    }
}

/// The last of some things taken on top of others.
proof fn lemma_one_more(start: Seq<JsonV>, more: Seq<JsonV>, count: int)
    requires
        0 <= count < more.len(),
    ensures
        (start + more.take(count + 1)).drop_last() == start + more.take(count),
        (start + more.take(count + 1)).last() == more[count],
{
    assert((start + more.take(count + 1)).drop_last() =~= start + more.take(count));
}

/// Puts together what the nodes of a cluster list of each index.
pub fn merge_listings(answers: &Vec<Json>) -> (stats: Vec<(String, IndexStats)>)
    requires
        listings_fit(listings_in(json::models(answers@))),
    ensures
        stats_models(stats@) == stats_by_index(listings_in(json::models(answers@))),
{
    let ghost all = json::models(answers@);
    let ghost whole = listings_in(all);
    let mut stats: Vec<(String, IndexStats)> = Vec::new();
    let mut i: usize = 0;
    assert(stats_models(stats@) =~= stats_by_index(listings_in(all.take(0))));
    while i < answers.len()
        invariant
            i <= answers.len(),
            all == json::models(answers@),
            whole == listings_in(all),
            listings_fit(whole),
            stats_models(stats@) == stats_by_index(listings_in(all.take(i as int))),
        decreases answers.len() - i,
    {
        let ghost start = listings_in(all.take(i as int));
        proof {
            assert(all.take(i + 1).drop_last() =~= all.take(i as int));
            assert(all.take(i + 1).last() == answers@[i as int]@);
            assert(start + Seq::<JsonV>::empty() =~= start);
        }
        if let Some(value) = answers[i].get("indexes") {
            if let Some(more) = value.as_array() {
                let ghost items = json::models(more@);
                let mut j: usize = 0;
                assert(start + items.take(0) =~= start);
                proof {
                    lemma_listings_are_a_prefix(all, i + 1);
                    lemma_first_listings_fit(whole, listings_in(all.take(i + 1)).len() as int);
                }
                while j < more.len()
                    invariant
                        j <= more.len(),
                        items == json::models(more@),
                        listings_fit(start + items),
                        stats_models(stats@) == stats_by_index(start + items.take(j as int)),
                    decreases more.len() - j,
                {
                    proof {
                        lemma_one_more(start, items, j as int);
                        let known = start + items.take(j as int);
                        let next = start + items.take(j + 1);
                        assert((start + items).take((start.len() + j) as int) =~= known);
                        assert((start + items).take((start.len() + j + 1) as int) =~= next);
                        lemma_first_listings_fit(start + items, (start.len() + j) as int);
                        lemma_first_listings_fit(start + items, (start.len() + j + 1) as int);
                        lemma_stats_are_bounded(known);
                        assert forall|k: int| 0 <= k < stats@.len() implies counts_fit(
                            (#[trigger] stats_models(stats@)[k]).1.counts,
                            items[j as int],
                        ) by {
                            assert(counts_bounded(stats_by_index(known)[k].1.counts, known));
                        }
                    }
                    add_listing(&mut stats, &more[j]);
                    j += 1;
                }
                assert(start + items.take(more.len() as int) =~= start + items);
            }
        }
        i += 1;
    }
    assert(all.take(answers.len() as int) =~= all);
    stats
}

/// The listings of the first nodes are the first of all listings.
proof fn lemma_listings_are_a_prefix(answers: Seq<JsonV>, count: int)
    requires
        0 <= count <= answers.len(),
    ensures
        listings_in(answers.take(count)).len() <= listings_in(answers).len(),
        listings_in(answers).take(listings_in(answers.take(count)).len() as int) == listings_in(
            answers.take(count),
        ),
    decreases answers.len(),
{
    if count < answers.len() {
        let shorter = answers.drop_last();
        lemma_listings_are_a_prefix(shorter, count);
        assert(shorter.take(count) =~= answers.take(count));
        let n = listings_in(answers.take(count)).len() as int;
        assert(listings_in(answers).take(n) =~= listings_in(shorter).take(n));
    } else {
        assert(answers.take(count) =~= answers);
        assert(listings_in(answers).take(listings_in(answers).len() as int) =~= listings_in(
            answers,
        ));
    }
}

// ---------------------------------------------------------------------------
// The answer
// ---------------------------------------------------------------------------

/// What a cluster lists of one index, with its fields in this order.
pub open spec fn cluster_index(
    name: Seq<char>,
    stats: IndexStatsV,
    include_data_size: bool,
    fields: Seq<JsonV>,
) -> JsonV {
    JsonV::Object(
        seq![("name"@, JsonV::Text(name))] + describe::text_entry("description"@, stats.description) + seq![
            ("document_count"@, search::count_value(stats.counts.document_count as nat)),
            ("index_size_bytes"@, search::count_value(stats.counts.index_size_bytes as nat)),
            ("memory_bytes"@, search::count_value(stats.counts.memory_bytes as nat)),
        ] + (if include_data_size {
            seq![
                ("data_size_bytes"@, search::count_value(stats.counts.data_size_bytes as nat)),
                ("total_size_bytes"@, search::count_value(stats.counts.total_size_bytes as nat)),
            ]
        } else {
            Seq::empty()
        }) + seq![
            ("shard_count"@, search::count_value(stats.counts.shard_count as nat)),
            ("warm_shards"@, search::count_value(stats.counts.warm_shards as nat)),
            ("field_count"@, search::count_value(fields.len())),
            ("fields"@, JsonV::Array(fields)),
        ],
    )
}

/// Whether a value is what a cluster lists of one index.
pub open spec fn lists_cluster_index(
    listed: JsonV,
    name: Seq<char>,
    stats: IndexStatsV,
    include_data_size: bool,
    fields: Seq<JsonV>,
    names: Seq<Seq<char>>,
    order: Seq<int>,
) -> bool {
    &&& catalog::is_in_name_order(fields, stats.fields, true, names, order)
    &&& listed == cluster_index(name, stats, include_data_size, fields)
}

/// What a cluster lists of one index, `id` first among its fields and the others in alphabetical
/// order: the shape that a single node uses.
pub fn list_cluster_index(name: &str, stats: IndexStats, include_data_size: bool) -> (listed: Json)
    ensures
        exists|fields: Seq<JsonV>, names: Seq<Seq<char>>, order: Seq<int>| #[trigger]
            lists_cluster_index(
                listed@,
                name@,
                stats@,
                include_data_size,
                fields,
                names,
                order,
            ),
{
    let ghost known = stats@;
    let mut parts: Vec<(String, Json)> = vec![entry("name", Json::text(name))];
    let ghost head = json::entry_models(parts@);
    assert(head =~= seq![("name"@, JsonV::Text(name@))]);
    push_text(&mut parts, "description", &stats.description);
    let ghost described = describe::text_entry("description"@, known.description);
    let counts: IndexCounts = stats.counts;
    parts.push(entry("document_count", Json::unsigned(counts.document_count)));
    parts.push(entry("index_size_bytes", Json::unsigned(counts.index_size_bytes)));
    parts.push(entry("memory_bytes", Json::unsigned(counts.memory_bytes)));
    let ghost counted_part = seq![
        ("document_count"@, search::count_value(counts.document_count as nat)),
        ("index_size_bytes"@, search::count_value(counts.index_size_bytes as nat)),
        ("memory_bytes"@, search::count_value(counts.memory_bytes as nat)),
    ];
    assert(json::entry_models(parts@) =~= head + described + counted_part);
    let ghost sizes = if include_data_size {
        seq![
            ("data_size_bytes"@, search::count_value(counts.data_size_bytes as nat)),
            ("total_size_bytes"@, search::count_value(counts.total_size_bytes as nat)),
        ]
    } else {
        Seq::empty()
    };
    if include_data_size {
        parts.push(entry("data_size_bytes", Json::unsigned(counts.data_size_bytes)));
        parts.push(entry("total_size_bytes", Json::unsigned(counts.total_size_bytes)));
    }
    assert(json::entry_models(parts@) =~= head + described + counted_part + sizes);
    let fields: Vec<Json> = values_by_name(stats.fields, true);
    let ghost listed_fields = json::models(fields@);
    let count: usize = fields.len();
    parts.push(entry("shard_count", Json::unsigned(counts.shard_count)));
    parts.push(entry("warm_shards", Json::unsigned(counts.warm_shards)));
    parts.push(entry("field_count", Json::count(count)));
    parts.push(entry("fields", Json::list(fields)));
    proof {
        assert(json::entry_models(parts@) =~= head + described + counted_part + sizes + seq![
            ("shard_count"@, search::count_value(counts.shard_count as nat)),
            ("warm_shards"@, search::count_value(counts.warm_shards as nat)),
            ("field_count"@, search::count_value(listed_fields.len())),
            ("fields"@, JsonV::Array(listed_fields)),
        ]);
    }
    let listed: Json = Json::object(parts);
    proof {
        let (names, order) = choose|names: Seq<Seq<char>>, order: Seq<int>| #[trigger]
            catalog::is_in_name_order(listed_fields, known.fields, true, names, order);
        assert(lists_cluster_index(
            listed@,
            name@,
            known,
            include_data_size,
            listed_fields,
            names,
            order,
        ));
    }
    listed
}

/// What is shown of one node.
pub open spec fn node_detail(answer: JsonV) -> JsonV {
    let id = match broadcast::text_of_value(answer.get("node_id"@)) {
        Some(text) => text,
        None => "unknown"@,
    };
    let indexes = match answer.get("indexes"@) {
        Some(value) => value,
        None => JsonV::Array(Seq::empty()),
    };
    JsonV::Object(
        seq![("node_id"@, JsonV::Text(id))] + describe::text_entry(
            "node_name"@,
            broadcast::text_of_value(answer.get("node_name"@)),
        ) + seq![
            ("indexes"@, indexes),
            ("total_indexes"@, search::count_value(count_under(answer, "total_indexes"@))),
            ("total_shards"@, search::count_value(count_under(answer, "total_shards"@))),
        ],
    )
}

/// What is shown of one node.
pub fn describe_node(answer: &Json) -> (detail: Json)
    ensures
        detail@ == node_detail(answer@),
{
    let node_id: Json = match text_at(answer, "node_id") {
        Some(id) => Json::text(id.as_str()),
        None => Json::text("unknown"),
    };
    let ghost id_value = node_id@;
    let mut parts: Vec<(String, Json)> = vec![entry("node_id", node_id)];
    let ghost head = json::entry_models(parts@);
    assert(head =~= seq![("node_id"@, id_value)]);
    let node_name: Option<String> = match text_at(answer, "node_name") {
        Some(name) => Some(name.clone()),
        None => None,
    };
    push_text(&mut parts, "node_name", &node_name);
    let ghost named = describe::text_entry("node_name"@, errors::opt_text(node_name));
    let indexes: Json = match answer.get("indexes") {
        Some(value) => value.clone(),
        None => {
            let none: Vec<Json> = Vec::new();
            assert(json::models(none@) =~= Seq::empty());
            Json::list(none)
        },
    };
    let ghost listed = indexes@;
    parts.push(entry("indexes", indexes));
    parts.push(entry("total_indexes", Json::unsigned(count_at(answer, "total_indexes"))));
    parts.push(entry("total_shards", Json::unsigned(count_at(answer, "total_shards"))));
    assert(json::entry_models(parts@) =~= head + named + seq![
        ("indexes"@, listed),
        ("total_indexes"@, search::count_value(count_under(answer@, "total_indexes"@))),
        ("total_shards"@, search::count_value(count_under(answer@, "total_shards"@))),
    ]);
    Json::object(parts)
}

/// The listing of a cluster, of these indexes and nodes.
pub open spec fn cluster_body(indexes: Seq<JsonV>, nodes: Seq<JsonV>, failed: nat) -> JsonV {
    JsonV::Object(
        seq![
            ("indexes"@, JsonV::Array(indexes)),
            ("total_indexes"@, search::count_value(indexes.len())),
            ("nodes_contacted"@, search::count_value(nodes.len())),
            ("nodes_failed"@, search::count_value(failed)),
            ("nodes"@, JsonV::Array(nodes)),
        ],
    )
}

/// Whether an entry is what a cluster lists of an index, under the index's name.
pub open spec fn is_cluster_entry(
    listed: (Seq<char>, JsonV),
    stats: (Seq<char>, IndexStatsV),
    include_data_size: bool,
) -> bool {
    &&& listed.0 == stats.0
    &&& exists|fields: Seq<JsonV>, names: Seq<Seq<char>>, order: Seq<int>| #[trigger]
        lists_cluster_index(
            listed.1,
            stats.0,
            stats.1,
            include_data_size,
            fields,
            names,
            order,
        )
}

/// Whether values are what a cluster lists of each index, under the indexes' names.
pub open spec fn lists_cluster_indexes(
    listed: Seq<(Seq<char>, JsonV)>,
    stats: Seq<(Seq<char>, IndexStatsV)>,
    include_data_size: bool,
) -> bool {
    &&& listed.len() == stats.len()
    &&& forall|i: int|
        0 <= i < listed.len() ==> is_cluster_entry(
            #[trigger] listed[i],
            stats[i],
            include_data_size,
        )
}

/// Whether a value is the listing of a cluster, from what its nodes listed.
pub open spec fn is_cluster_listing(
    answer: JsonV,
    answers: Seq<JsonV>,
    failed: nat,
    include_data_size: bool,
    entries: Seq<(Seq<char>, JsonV)>,
    indexes: Seq<JsonV>,
    listed: Seq<Seq<char>>,
    order: Seq<int>,
) -> bool {
    &&& lists_cluster_indexes(entries, stats_by_index(listings_in(answers)), include_data_size)
    &&& catalog::is_in_name_order(indexes, entries, false, listed, order)
    &&& answer == cluster_body(
        indexes,
        answers.map_values(|node: JsonV| node_detail(node)),
        failed,
    )
}

/// Answers a listing of the whole cluster: the indexes in alphabetical order, each in the shape that
/// a single node uses, and each node with what it listed.
pub fn answer_cluster_listing(answers: &Vec<Json>, failed: u64, include_data_size: bool) -> (answer:
    Json)
    requires
        listings_fit(listings_in(json::models(answers@))),
    ensures
        exists|
            entries: Seq<(Seq<char>, JsonV)>,
            indexes: Seq<JsonV>,
            listed: Seq<Seq<char>>,
            order: Seq<int>,
        | #[trigger]
            is_cluster_listing(
                answer@,
                json::models(answers@),
                failed as nat,
                include_data_size,
                entries,
                indexes,
                listed,
                order,
            ),
{
    let ghost all = json::models(answers@);
    let stats: Vec<(String, IndexStats)> = merge_listings(answers);
    let ghost known = stats_models(stats@);
    let mut entries: Vec<(String, Json)> = Vec::new();
    for item in it: stats
        invariant
            it.seq() == stats@,
            known == stats_models(stats@),
            entries@.len() == it.index(),
            lists_cluster_indexes(
                json::entry_models(entries@),
                known.take(it.index() as int),
                include_data_size,
            ),
    {
        let ghost place = it.index() as int;
        assert(item == stats@[place]);
        let (name, found) = item;
        assert(known[place] == (name@, found@));
        let listed: Json = list_cluster_index(name.as_str(), found, include_data_size);
        let ghost before = json::entry_models(entries@);
        entries.push((name, listed));
        proof {
            let after = json::entry_models(entries@);
            assert(after =~= before.push((name@, listed@)));
            let longer = known.take(place + 1);
            assert forall|i: int| 0 <= i < after.len() implies is_cluster_entry(
                #[trigger] after[i],
                longer[i],
                include_data_size,
            ) by {
                if i < before.len() {
                    assert(after[i] == before[i]);
                    assert(longer[i] == known.take(place)[i]);
                    assert(is_cluster_entry(before[i], known.take(place)[i], include_data_size));
                } else {
                    assert(after[i] == (name@, listed@));
                    assert(longer[i] == (name@, found@));
                    let (fields, names, order) = choose|
                        fields: Seq<JsonV>,
                        names: Seq<Seq<char>>,
                        order: Seq<int>,
                    | #[trigger]
                        lists_cluster_index(
                            listed@,
                            name@,
                            found@,
                            include_data_size,
                            fields,
                            names,
                            order,
                        );
                    assert(lists_cluster_index(
                        after[i].1,
                        longer[i].0,
                        longer[i].1,
                        include_data_size,
                        fields,
                        names,
                        order,
                    ));
                }
            }
        }
    }
    assert(known.take(known.len() as int) =~= known);
    let ghost listed_entries = json::entry_models(entries@);
    let indexes: Vec<Json> = values_by_name(entries, false);
    let ghost values = json::models(indexes@);
    let mut nodes: Vec<Json> = Vec::new();
    let ghost details = all.map_values(|node: JsonV| node_detail(node));
    let mut i: usize = 0;
    assert(json::models(nodes@) =~= details.take(0));
    while i < answers.len()
        invariant
            i <= answers.len(),
            all == json::models(answers@),
            details == all.map_values(|node: JsonV| node_detail(node)),
            json::models(nodes@) == details.take(i as int),
        decreases answers.len() - i,
    {
        let ghost before = nodes@;
        nodes.push(describe_node(&answers[i]));
        assert(json::models(nodes@) =~= json::models(before).push(details[i as int]));
        assert(details.take(i + 1) =~= details.take(i as int).push(details[i as int]));
        i += 1;
    }
    assert(details.take(answers.len() as int) =~= details);
    let count: usize = indexes.len();
    let parts: Vec<(String, Json)> = vec![
        entry("indexes", Json::list(indexes)),
        entry("total_indexes", Json::count(count)),
        entry("nodes_contacted", Json::count(answers.len())),
        entry("nodes_failed", Json::unsigned(failed)),
        entry("nodes", Json::list(nodes)),
    ];
    proof {
        assert(json::entry_models(parts@) =~= seq![
            ("indexes"@, JsonV::Array(values)),
            ("total_indexes"@, search::count_value(values.len())),
            ("nodes_contacted"@, search::count_value(details.len())),
            ("nodes_failed"@, search::count_value(failed as nat)),
            ("nodes"@, JsonV::Array(details)),
        ]);
    }
    let answer: Json = Json::object(parts);
    proof {
        let (listed, order) = choose|listed: Seq<Seq<char>>, order: Seq<int>| #[trigger]
            catalog::is_in_name_order(values, listed_entries, false, listed, order);
        assert(is_cluster_listing(
            answer@,
            all,
            failed as nat,
            include_data_size,
            listed_entries,
            values,
            listed,
            order,
        ));
    }
    answer
}

// ---------------------------------------------------------------------------
// Fields of a cluster
// ---------------------------------------------------------------------------

/// Whether a listed field is that of a name.
pub open spec fn is_listed_as(field: JsonV, name: Seq<char>) -> bool {
    broadcast::text_of_value(field.get("name"@)) == Some(name)
}

/// Whether some listed field of a name has a flag set.
pub open spec fn some_sets(more: Seq<JsonV>, name: Seq<char>, flag: Seq<char>) -> bool {
    exists|i: int| 0 <= i < more.len() && is_listed_as(#[trigger] more[i], name) && flag_set(more[i], flag)
}

/// Whether a name is listed at all.
pub open spec fn is_listed(more: Seq<JsonV>, name: Seq<char>) -> bool {
    exists|i: int| 0 <= i < more.len() && is_listed_as(#[trigger] more[i], name)
}

/// A field is searchable in the cluster exactly where some node lists it as searchable, and sortable
/// exactly where some node lists it as sortable.
pub proof fn law_any_node_makes_a_field_searchable(
    more: Seq<JsonV>,
    name: Seq<char>,
    flag: Seq<char>,
)
    requires
        flag == "searchable"@ || flag == "sortable"@,
    ensures
        match json::value_under(fields_with_all(Seq::empty(), more), name) {
            Some(field) => is_listed(more, name) && field is Object && (flag_set(field, flag)
                <==> some_sets(more, name, flag)),
            None => !is_listed(more, name),
        },
    decreases more.len(),
{
    reveal_strlit("searchable");
    reveal_strlit("sortable");
    assert("searchable"@.len() == 10 && "sortable"@.len() == 8);
    if more.len() > 0 {
        let front = more.drop_last();
        let last = more.last();
        let before = fields_with_all(Seq::empty(), front);
        law_any_node_makes_a_field_searchable(front, name, flag);
        assert(more[more.len() - 1] == last);
        if is_listed(front, name) {
            let i = choose|i: int| 0 <= i < front.len() && is_listed_as(#[trigger] front[i], name);
            assert(more[i] == front[i]);
        }
        if some_sets(front, name, flag) {
            let i = choose|i: int|
                0 <= i < front.len() && is_listed_as(#[trigger] front[i], name) && flag_set(
                    front[i],
                    flag,
                );
            assert(more[i] == front[i]);
        }
        if is_listed(more, name) && !is_listed_as(last, name) {
            let i = choose|i: int| 0 <= i < more.len() && is_listed_as(#[trigger] more[i], name);
            assert(front[i] == more[i]);
        }
        if some_sets(more, name, flag) && !(is_listed_as(last, name) && flag_set(last, flag)) {
            let i = choose|i: int|
                0 <= i < more.len() && is_listed_as(#[trigger] more[i], name) && flag_set(
                    more[i],
                    flag,
                );
            assert(front[i] == more[i]);
        }
        if let Some(own) = broadcast::text_of_value(last.get("name"@)) {
            let put = match json::value_under(before, own) {
                Some(known) => with_flag_of(
                    with_flag_of(known, last, "searchable"@),
                    last,
                    "sortable"@,
                ),
                None => last,
            };
            json::lemma_with_entry_read_back(before, own, put, name);
            if own == name {
                if let Some(known) = json::value_under(before, name) {
                    let one = with_flag_of(known, last, "searchable"@);
                    json::lemma_read_back(known, "searchable"@, JsonV::Bool(true), flag);
                    json::lemma_read_back(one, "sortable"@, JsonV::Bool(true), flag);
                }
            }
        }
    }
}

} // verus!
