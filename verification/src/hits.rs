//! Search hits: what a caller is shown of a document, and in which order.

use vstd::prelude::*;
use vstd::string::*;
use crate::{json, order, text};
use crate::json::{Json, JsonNumber, JsonV, NumV, compare_doubles, find_key, put_entry, take_entry};
use crate::order::{Precedence, Ranking, ordered_places, rearranged};
use crate::text::{Standing, compare_texts, count_text};

verus! {

/// Metadata field carrying the normalized sort value of a hit.
///
/// Written before field projection runs and read by every merge. It starts with an underscore, so
/// a projection keeps it, and hits can be merged even when the caller does not ask for the field
/// they are sorted by. It is taken out of every hit before the caller sees it.
pub const SORT_KEY_FIELD: &'static str = "_sort_key";

/// Which way round a sort goes.
#[derive(Debug, Clone, Copy, PartialEq, Eq, Structural)]
pub enum SortOrder {
    Asc,
    Desc,
}

/// A sort a caller asked for.
#[derive(Debug, PartialEq, Eq)]
pub struct SortSpec {
    pub field: String,
    pub order: SortOrder,
}

impl Clone for SortSpec {
    fn clone(&self) -> (copy: Self)
        ensures
            copy.field@ == self.field@,
            copy.order == self.order,
    {
        SortSpec { field: self.field.clone(), order: self.order }
    }
}

// ---------------------------------------------------------------------------
// The window
// ---------------------------------------------------------------------------

/// The slice of an ordered result a caller asked for.
///
/// One value rather than two loose numbers, because how the two relate is the whole of paging:
/// see [`SearchWindow::fetch_count`].
#[derive(Debug, Clone, Copy, PartialEq, Eq, Structural)]
pub struct SearchWindow {
    /// How many ordered hits to discard before the first one returned.
    pub offset: usize,
    /// How many to return after that.
    pub limit: usize,
}

/// The part of an ordered sequence that a window shows.
pub open spec fn window_of<T>(ordered: Seq<T>, window: SearchWindow) -> Seq<T> {
    let skipped = if window.offset < ordered.len() {
        ordered.skip(window.offset as int)
    } else {
        Seq::empty()
    };
    if window.limit < skipped.len() {
        skipped.take(window.limit as int)
    } else {
        skipped
    }
}

/// How many hits a window reaches from the front, as far as a count can say.
pub open spec fn window_reach(window: SearchWindow) -> usize {
    if window.offset + window.limit <= usize::MAX {
        (window.offset + window.limit) as usize
    } else {
        usize::MAX
    }
}

/// Why a limit cannot be served.
pub open spec fn limit_refusal(limit: usize, max: usize) -> Seq<char> {
    "limit "@ + text::decimal(limit as nat) + " is above the maximum of "@ + text::decimal(max as nat)
        + "; ask for at most that many hits, or narrow the query"@
}

/// Why a page cannot be served.
pub open spec fn page_refusal(window: SearchWindow, max: usize) -> Seq<char> {
    "offset "@ + text::decimal(window.offset as nat) + " + limit "@ + text::decimal(window.limit as nat) + " = "@
        + text::decimal(window_reach(window) as nat) + " is above the maximum of "@ + text::decimal(max as nat)
        + "; the engine fetches offset + limit hits, so a page this deep costs what a limit that large costs. Narrow the query, or sort on a field that lets you resume from the last hit instead of paging."@
}

impl SearchWindow {
    /// The first `limit` hits: what every caller that does not page asks for.
    pub fn first(limit: usize) -> (window: SearchWindow)
        ensures
            window.offset == 0,
            window.limit == limit,
    {
        SearchWindow { offset: 0, limit }
    }

    /// Resolves a request's `limit` and `offset` into a window, or says why it cannot be served.
    ///
    /// An absent `limit` is the node's default. The ceiling applies to `offset + limit`, because
    /// that sum is what gets fetched.
    pub fn checked(
        limit: Option<usize>,
        offset: Option<usize>,
        default_limit: usize,
        max_search_limit: usize,
    ) -> (window: Result<SearchWindow, String>)
        ensures
            ({
                let asked = SearchWindow {
                    offset: if let Some(o) = offset {
                        o
                    } else {
                        0
                    },
                    limit: if let Some(l) = limit {
                        l
                    } else {
                        default_limit
                    },
                };
                match window {
                    Ok(w) => w == asked && window_reach(asked) <= max_search_limit,
                    Err(why) => if asked.limit > max_search_limit {
                        why@ == limit_refusal(asked.limit, max_search_limit)
                    } else {
                        window_reach(asked) > max_search_limit && why@ == page_refusal(
                            asked,
                            max_search_limit,
                        )
                    },
                }
            }),
    {
        let window = SearchWindow {
            offset: offset.unwrap_or(0),
            limit: limit.unwrap_or(default_limit),
        };
        if window.limit > max_search_limit {
            let mut why: String = String::from_str("limit ");
            why.append(count_text(window.limit).as_str());
            why.append(" is above the maximum of ");
            why.append(count_text(max_search_limit).as_str());
            why.append("; ask for at most that many hits, or narrow the query");
            return Err(why);
        }
        if window.fetch_count() > max_search_limit {
            let mut why: String = String::from_str("offset ");
            why.append(count_text(window.offset).as_str());
            why.append(" + limit ");
            why.append(count_text(window.limit).as_str());
            why.append(" = ");
            why.append(count_text(window.fetch_count()).as_str());
            why.append(" is above the maximum of ");
            why.append(count_text(max_search_limit).as_str());
            why.append(
                "; the engine fetches offset + limit hits, so a page this deep costs what a limit that large costs. Narrow the query, or sort on a field that lets you resume from the last hit instead of paging.",
            );
            return Err(why);
        }
        Ok(window)
    }

    /// How many hits each source must return for this window to be servable from them.
    ///
    /// `offset + limit`, not `limit`: the skip happens once, after the sources' hits have been
    /// merged, and every hit of the window may come from one source.
    pub fn fetch_count(&self) -> (count: usize)
        ensures
            count == window_reach(*self),
    {
        self.offset.saturating_add(self.limit)
    }

    /// Takes this window out of a sequence that is already in its final order.
    pub fn apply<T>(&self, ordered: Vec<T>) -> (page: Vec<T>)
        ensures
            page@ == window_of(ordered@, *self),
    {
        let ghost all = ordered@;
        let mut ordered: Vec<T> = ordered;
        if self.offset >= ordered.len() {
            return Vec::new();
        }
        let mut page: Vec<T> = ordered.split_off(self.offset);
        assert(page@ =~= all.skip(self.offset as int));
        if self.limit < page.len() {
            page.truncate(self.limit);
            assert(page@ =~= all.skip(self.offset as int).take(self.limit as int));
        }
        page
    }
}

// ---------------------------------------------------------------------------
// Comparing hits
// ---------------------------------------------------------------------------

/// The double a value is, if it is a number.
pub open spec fn as_double(value: JsonV) -> Option<int> {
    match value {
        JsonV::Number(n) => json::double_of(json::number_chars(n)),
        _ => None,
    }
}

/// How two signed whole numbers stand to each other.
pub open spec fn i64_order(x: i64, y: i64) -> Standing {
    if x < y {
        Standing::Before
    } else if x == y {
        Standing::Level
    } else {
        Standing::After
    }
}

/// How two sort values stand to each other, smallest first.
///
/// Whole numbers compare exactly; other numbers as doubles; texts alphabetically; anything else
/// stands level.
pub open spec fn value_order(x: JsonV, y: JsonV) -> Standing {
    match (x.as_i64(), y.as_i64()) {
        (Some(a), Some(b)) => i64_order(a, b),
        _ => match (as_double(x), as_double(y)) {
            (Some(a), Some(b)) => json::order_of(a, b),
            _ => match (x, y) {
                (JsonV::Text(a), JsonV::Text(b)) => text::text_order(a, b),
                _ => Standing::Level,
            },
        },
    }
}

/// How two optional sort values stand to each other: what is missing goes last either way round.
pub open spec fn key_order(x: Option<JsonV>, y: Option<JsonV>, order: SortOrder) -> Standing {
    match (x, y) {
        (Some(a), Some(b)) => match order {
            SortOrder::Asc => value_order(a, b),
            SortOrder::Desc => value_order(a, b).turned(),
        },
        (Some(_), None) => Standing::Before,
        (None, Some(_)) => Standing::After,
        (None, None) => Standing::Level,
    }
}

/// How two values stand to each other as doubles, where both are numbers.
fn compare_as_doubles(x: &Json, y: &Json) -> (standing: Option<Standing>)
    ensures
        standing == match (as_double(x@), as_double(y@)) {
            (Some(a), Some(b)) => Some(json::order_of(a, b)),
            _ => None,
        },
{
    match (x, y) {
        (Json::Number(a), Json::Number(b)) => {
            let left: String = a.written();
            let right: String = b.written();
            compare_doubles(left.as_str(), right.as_str())
        },
        _ => None,
    }
}

/// How two sort values stand to each other, smallest first.
fn compare_values(x: &Json, y: &Json) -> (standing: Standing)
    ensures
        standing == value_order(x@, y@),
{
    if let (Some(a), Some(b)) = (x.as_i64(), y.as_i64()) {
        return if a < b {
            Standing::Before
        } else if a == b {
            Standing::Level
        } else {
            Standing::After
        };
    }
    if let Some(standing) = compare_as_doubles(x, y) {
        return standing;
    }
    match (x, y) {
        (Json::Text(a), Json::Text(b)) => compare_texts(a.as_str(), b.as_str()),
        _ => Standing::Level,
    }
}

/// How two hits stand to each other by a named field.
pub fn stand_by_field(a: &Json, b: &Json, field: &str, order: SortOrder) -> (standing: Standing)
    ensures
        standing == key_order(a@.get(field@), b@.get(field@), order),
{
    match (a.get(field), b.get(field)) {
        (Some(x), Some(y)) => {
            let base: Standing = compare_values(x, y);
            match order {
                SortOrder::Asc => base,
                SortOrder::Desc => base.turn(),
            }
        },
        (Some(_), None) => Standing::Before,
        (None, Some(_)) => Standing::After,
        (None, None) => Standing::Level,
    }
}

/// The order a standing is called by the standard library.
pub open spec fn std_order(standing: Standing) -> std::cmp::Ordering {
    match standing {
        Standing::Before => std::cmp::Ordering::Less,
        Standing::Level => std::cmp::Ordering::Equal,
        Standing::After => std::cmp::Ordering::Greater,
    }
}

/// Compares two hit documents by a named field.
///
/// Documents missing the field go last whichever way the sort goes.
pub fn compare_hits_by_field(a: &Json, b: &Json, field: &str, order: SortOrder) -> (result:
    std::cmp::Ordering)
    ensures
        result == std_order(key_order(a@.get(field@), b@.get(field@), order)),
{
    match stand_by_field(a, b, field, order) {
        Standing::Before => std::cmp::Ordering::Less,
        Standing::Level => std::cmp::Ordering::Equal,
        Standing::After => std::cmp::Ordering::Greater,
    }
}

/// The score of a hit, as a double: zero where it carries none.
pub open spec fn score_of(hit: JsonV) -> int {
    match hit.get("_score"@) {
        Some(value) => match as_double(value) {
            Some(score) => score,
            None => 0,
        },
        None => 0,
    }
}

/// How two hits stand to each other by what the caller asked to order on: the sort key where a
/// sort was asked for, the score otherwise, highest first.
pub open spec fn primary_order(a: JsonV, b: JsonV, sort: Option<SortOrder>) -> Standing {
    match sort {
        Some(order) => key_order(a.get(SORT_KEY_FIELD@), b.get(SORT_KEY_FIELD@), order),
        None => json::order_of(score_of(b), score_of(a)),
    }
}

/// The written score of a hit.
fn written_score(hit: &Json) -> (text: String)
    ensures
        json::double_of(text@) == Some(score_of(hit@)),
{
    if let Some(Json::Number(n)) = hit.get("_score") {
        let text: String = n.written();
        if let Some(_) = compare_doubles(text.as_str(), text.as_str()) {
            return text;
        }
    }
    String::from_str("0")
}

/// How two hits stand to each other by what the caller asked to order on.
pub fn stand_primary(a: &Json, b: &Json, sort: Option<SortOrder>) -> (standing: Standing)
    ensures
        standing == primary_order(a@, b@, sort),
{
    match sort {
        Some(order) => stand_by_field(a, b, SORT_KEY_FIELD, order),
        None => {
            let left: String = written_score(b);
            let right: String = written_score(a);
            match compare_doubles(left.as_str(), right.as_str()) {
                Some(standing) => standing,
                None => Standing::Level,
            }
        },
    }
}

/// Compares two hits by what the caller asked to order on.
pub fn compare_hits_primary(a: &Json, b: &Json, sort: Option<&SortSpec>) -> (result:
    std::cmp::Ordering)
    ensures
        result == std_order(
            primary_order(
                a@,
                b@,
                match sort {
                    Some(spec) => Some(spec.order),
                    None => None,
                },
            ),
        ),
{
    let order: Option<SortOrder> = match sort {
        Some(spec) => Some(spec.order),
        None => None,
    };
    match stand_primary(a, b, order) {
        Standing::Before => std::cmp::Ordering::Less,
        Standing::Level => std::cmp::Ordering::Equal,
        Standing::After => std::cmp::Ordering::Greater,
    }
}

// ---------------------------------------------------------------------------
// Merging hits
// ---------------------------------------------------------------------------

/// Whether the hit at one place goes before the hit at another: by what the caller asked to order
/// on, and by place where that leaves the two level.
pub open spec fn merge_before(hits: Seq<JsonV>, sort: Option<SortOrder>) -> Precedence {
    |a: int, b: int|
        match primary_order(hits[a], hits[b], sort) {
            Standing::Before => true,
            Standing::Level => a < b,
            Standing::After => false,
        }
}

/// The blocks of several sources, as values of the model.
pub open spec fn block_models(blocks: Seq<Vec<Json>>) -> Seq<Seq<JsonV>> {
    blocks.map_values(|block: Vec<Json>| json::models(block@))
}

/// The hits of several sources one source after another: a place in this sequence is a source's
/// rank first and a place within that source second.
pub open spec fn lined_up(blocks: Seq<Vec<Json>>) -> Seq<JsonV> {
    block_models(blocks).flatten()
}

/// The direction of an optional sort.
pub open spec fn direction(sort: Option<&SortSpec>) -> Option<SortOrder> {
    match sort {
        Some(spec) => Some(spec.order),
        None => None,
    }
}

/// Hits ranked by what the caller asked to order on.
struct MergeRanking<'a> {
    hits: &'a Vec<Json>,
    sort: Option<SortOrder>,
}

impl<'a> Ranking for MergeRanking<'a> {
    closed spec fn size(&self) -> nat {
        self.hits@.len()
    }

    closed spec fn order(&self) -> Precedence {
        merge_before(json::models(self.hits@), self.sort)
    }

    fn goes_before(&self, a: usize, b: usize) -> (before: bool) {
        match stand_primary(&self.hits[a], &self.hits[b], self.sort) {
            Standing::Before => true,
            Standing::Level => a < b,
            Standing::After => false,
        }
    }
}

/// Writes the hits of several sources one source after another.
fn line_up(blocks: Vec<Vec<Json>>) -> (hits: Vec<Json>)
    ensures
        json::models(hits@) == lined_up(blocks@),
{
    let ghost all = blocks@;
    let ghost shape = block_models(all);
    let mut blocks: Vec<Vec<Json>> = blocks;
    let mut hits: Vec<Json> = Vec::new();
    let mut i: usize = 0;
    assert(shape.take(0).flatten() =~= json::models(hits@));
    while i < blocks.len()
        invariant
            i <= blocks.len(),
            blocks@.len() == all.len(),
            shape == block_models(all),
            forall|k: int| i <= k < all.len() ==> blocks@[k] == all[k],
            json::models(hits@) == shape.take(i as int).flatten(),
        decreases blocks.len() - i,
    {
        let mut block: Vec<Json> = Vec::new();
        std::mem::swap(&mut blocks[i], &mut block);
        let ghost before = hits@;
        let ghost added = block@;
        assert(block@ == all[i as int]@);
        hits.append(&mut block);
        proof {
            assert(json::models(hits@) =~= json::models(before) + json::models(added));
            shape.take(i as int).lemma_flatten_push(shape[i as int]);
            assert(shape.take(i + 1) =~= shape.take(i as int).push(shape[i as int]));
        }
        i += 1;
    }
    assert(shape.take(all.len() as int) =~= shape);
    hits
}

/// Orders hits gathered from several sources and returns the requested window of them.
///
/// The blocks arrive in the order the sources were asked, never the order they answered. A tie
/// falls back to the source's rank and then to the hit's place within that source. The window is
/// taken after the merge, so a page means here what it would mean on a single source.
pub fn order_hit_blocks(
    blocks: Vec<Vec<Json>>,
    sort: Option<&SortSpec>,
    window: SearchWindow,
) -> (page: Vec<Json>)
    ensures
        exists|order: Seq<int>| #[trigger]
            is_merge_page(json::models(page@), lined_up(blocks@), direction(sort), window, order),
{
    let ghost gathered = lined_up(blocks@);
    let hits: Vec<Json> = line_up(blocks);
    let by: Option<SortOrder> = match sort {
        Some(spec) => Some(spec.order),
        None => None,
    };
    let ranking = MergeRanking { hits: &hits, sort: by };
    let order: Vec<usize> = ordered_places(&ranking, hits.len());
    let ghost kept = hits@;
    let ordered: Vec<Json> = rearranged(hits, &order);
    let page: Vec<Json> = window.apply(ordered);
    proof {
        assert(json::models(order::at_places(kept, order::places(order@))) =~= order::at_places(gathered, order::places(order@)));
        assert(json::models(window_of(ordered@, window)) =~= window_of(json::models(ordered@), window));
        assert(is_merge_page(json::models(page@), gathered, by, window, order::places(order@)));
    }
    page
}

/// Whether a page is the window of hits taken in this order, and the order is the one asked for.
pub open spec fn is_merge_page(
    page: Seq<JsonV>,
    hits: Seq<JsonV>,
    sort: Option<SortOrder>,
    window: SearchWindow,
    order: Seq<int>,
) -> bool {
    &&& order::is_ordering(hits.len(), merge_before(hits, sort), order)
    &&& page == window_of(order::at_places(hits, order), window)
}

/// The score of a hit as a shard reports it.
///
/// `order` places it among scores, higher for a better one, and is absent for a score that
/// compares with nothing. `number` is the score as a response shows it, absent where JSON has no
/// such number.
#[derive(Debug, PartialEq)]
pub struct Score {
    pub order: Option<i64>,
    pub number: Option<JsonNumber>,
}

impl Clone for Score {
    fn clone(&self) -> (copy: Self)
        ensures
            copy.order == self.order,
            score_number(copy) == score_number(*self),
    {
        let number: Option<JsonNumber> = match &self.number {
            Some(n) => Some(n.clone()),
            None => None,
        };
        Score { order: self.order, number }
    }
}

/// The number a response shows for a score.
pub open spec fn score_number(score: Score) -> Option<NumV> {
    match score.number {
        Some(n) => Some(n@),
        None => None,
    }
}

/// One node's hit, as a value of the model.
pub struct ShardHitV {
    pub shard: u128,
    pub score: Option<i64>,
    pub number: Option<NumV>,
    pub doc: JsonV,
}

/// One node's hits, as values of the model.
pub open spec fn shard_hits(hits: Seq<(u128, Score, Json)>) -> Seq<ShardHitV> {
    hits.map_values(
        |hit: (u128, Score, Json)|
            ShardHitV {
                shard: hit.0,
                score: hit.1.order,
                number: score_number(hit.1),
                doc: hit.2@,
            },
    )
}

/// How two scores stand to each other, best first.
pub open spec fn score_order(a: Option<i64>, b: Option<i64>) -> Standing {
    match (b, a) {
        (Some(y), Some(x)) => i64_order(y, x),
        _ => Standing::Level,
    }
}

/// Whether one node's hit at one place goes before the one at another: by what the caller asked
/// to order on, then by the shard it came from, then by place.
pub open spec fn shard_hits_before(hits: Seq<ShardHitV>, sort: Option<SortOrder>) -> Precedence {
    |a: int, b: int|
        {
            let primary = match sort {
                Some(order) => key_order(
                    hits[a].doc.get(SORT_KEY_FIELD@),
                    hits[b].doc.get(SORT_KEY_FIELD@),
                    order,
                ),
                None => score_order(hits[a].score, hits[b].score),
            };
            match primary {
                Standing::Before => true,
                Standing::After => false,
                Standing::Level => hits[a].shard < hits[b].shard || (hits[a].shard == hits[b].shard
                    && a < b),
            }
        }
}

/// One node's hits, ranked.
struct ShardRanking<'a> {
    hits: &'a Vec<(u128, Score, Json)>,
    sort: Option<SortOrder>,
}

impl<'a> Ranking for ShardRanking<'a> {
    closed spec fn size(&self) -> nat {
        self.hits@.len()
    }

    closed spec fn order(&self) -> Precedence {
        shard_hits_before(shard_hits(self.hits@), self.sort)
    }

    fn goes_before(&self, a: usize, b: usize) -> (before: bool) {
        let primary: Standing = match self.sort {
            Some(order) => stand_by_field(&self.hits[a].2, &self.hits[b].2, SORT_KEY_FIELD, order),
            None => match (self.hits[b].1.order, self.hits[a].1.order) {
                (Some(y), Some(x)) => {
                    if y < x {
                        Standing::Before
                    } else if y == x {
                        Standing::Level
                    } else {
                        Standing::After
                    }
                },
                _ => Standing::Level,
            },
        };
        match primary {
            Standing::Before => true,
            Standing::After => false,
            Standing::Level => {
                let left: u128 = self.hits[a].0;
                let right: u128 = self.hits[b].0;
                left < right || (left == right && a < b)
            },
        }
    }
}

/// Orders one node's shard hits.
///
/// Shards answer in whatever order they finish, so a tie falls back to the shard's identifier,
/// and then to the hit's place in that shard's own ordering.
pub fn order_shard_hits(results: &mut Vec<(u128, Score, Json)>, sort: Option<&SortSpec>)
    ensures
        exists|order: Seq<int>| #[trigger]
            is_shard_order(
                shard_hits(final(results)@),
                shard_hits(old(results)@),
                direction(sort),
                order,
            ),
{
    let mut hits: Vec<(u128, Score, Json)> = Vec::new();
    std::mem::swap(results, &mut hits);
    let by: Option<SortOrder> = match sort {
        Some(spec) => Some(spec.order),
        None => None,
    };
    let ranking = ShardRanking { hits: &hits, sort: by };
    let order: Vec<usize> = ordered_places(&ranking, hits.len());
    let mut ordered: Vec<(u128, Score, Json)> = rearranged(hits, &order);
    std::mem::swap(results, &mut ordered);
    proof {
        assert(shard_hits(results@) =~= order::at_places(shard_hits(old(results)@), order::places(order@)));
        assert(is_shard_order(
            shard_hits(results@),
            shard_hits(old(results)@),
            by,
            order::places(order@),
        ));
    }
}

/// Whether hits are the gathered ones taken in this order, and the order is the one asked for.
pub open spec fn is_shard_order(
    ordered: Seq<ShardHitV>,
    gathered: Seq<ShardHitV>,
    sort: Option<SortOrder>,
    order: Seq<int>,
) -> bool {
    &&& order::is_ordering(gathered.len(), shard_hits_before(gathered, sort), order)
    &&& ordered == order::at_places(gathered, order)
}

// ---------------------------------------------------------------------------
// What a caller is shown of a hit
// ---------------------------------------------------------------------------

/// Whether a field name is metadata that a response adds.
pub open spec fn is_metadata(name: Seq<char>) -> bool {
    name.len() > 0 && name[0] == '_'
}

/// Whether a field name is metadata that a response adds.
pub fn names_metadata(name: &str) -> (metadata: bool)
    ensures
        metadata == is_metadata(name@),
{
    name.unicode_len() > 0 && name.get_char(0) == '_'
}

/// What is left of a document's entries once the requested fields are taken out of it.
pub open spec fn left_over(
    entries: Seq<(Seq<char>, JsonV)>,
    fields: Seq<Seq<char>>,
) -> Seq<(Seq<char>, JsonV)>
    decreases fields.len(),
{
    if fields.len() == 0 {
        entries
    } else {
        json::without_key(left_over(entries, fields.drop_last()), fields.last())
    }
}

/// The requested fields a document has, in the order they were requested.
pub open spec fn requested(
    entries: Seq<(Seq<char>, JsonV)>,
    fields: Seq<Seq<char>>,
) -> Seq<(Seq<char>, JsonV)>
    decreases fields.len(),
{
    if fields.len() == 0 {
        Seq::empty()
    } else {
        let before = requested(entries, fields.drop_last());
        match json::value_under(left_over(entries, fields.drop_last()), fields.last()) {
            Some(value) => json::with_entry(before, fields.last(), value),
            None => before,
        }
    }
}

/// Entries with the metadata of others written behind them.
pub open spec fn with_metadata(
    kept: Seq<(Seq<char>, JsonV)>,
    others: Seq<(Seq<char>, JsonV)>,
) -> Seq<(Seq<char>, JsonV)>
    decreases others.len(),
{
    if others.len() == 0 {
        kept
    } else {
        let before = with_metadata(kept, others.drop_last());
        if is_metadata(others.last().0) {
            json::with_entry(before, others.last().0, others.last().1)
        } else {
            before
        }
    }
}

/// What a projection leaves of a document.
pub open spec fn projection(doc: JsonV, fields: Seq<Seq<char>>) -> JsonV {
    match doc {
        JsonV::Object(entries) => JsonV::Object(
            with_metadata(requested(entries, fields), left_over(entries, fields)),
        ),
        _ => doc,
    }
}

/// Keeps only the named fields of a document, and its metadata.
///
/// The named fields come first, in the order they are named, so a response shows them as the
/// caller asked for them. Metadata follows.
pub fn apply_field_projection(doc: Json, fields: &Vec<String>) -> (shown: Json)
    ensures
        shown@ == projection(doc@, text::texts(fields@)),
{
    broadcast use json::lemma_model_by_parts;

    if let Json::Object(entries) = doc {
        let ghost all = json::entry_models(entries@);
        let ghost names = text::texts(fields@);
        let mut entries: Vec<(String, Json)> = entries;
        let mut kept: Vec<(String, Json)> = Vec::new();
        let mut i: usize = 0;
        assert(json::entry_models(kept@) =~= requested(all, names.take(0)));
        while i < fields.len()
            invariant
                i <= fields.len(),
                names == text::texts(fields@),
                json::entry_models(entries@) == left_over(all, names.take(i as int)),
                json::entry_models(kept@) == requested(all, names.take(i as int)),
            decreases fields.len() - i,
        {
            proof {
                assert(names.take(i + 1).drop_last() =~= names.take(i as int));
                assert(names.take(i + 1).last() == fields@[i as int]@);
            }
            if let Some(value) = take_entry(&mut entries, fields[i].as_str()) {
                put_entry(&mut kept, fields[i].as_str(), value);
            }
            i += 1;
        }
        assert(names.take(fields.len() as int) =~= names);
        let ghost front = json::entry_models(kept@);
        let ghost rest = json::entry_models(entries@);
        let mut j: usize = 0;
        while j < entries.len()
            invariant
                j <= entries.len(),
                rest == json::entry_models(entries@),
                json::entry_models(kept@) == with_metadata(front, rest.take(j as int)),
            decreases entries.len() - j,
        {
            proof {
                assert(rest.take(j + 1).drop_last() =~= rest.take(j as int));
                assert(rest.take(j + 1).last() == rest[j as int]);
            }
            if names_metadata(entries[j].0.as_str()) {
                put_entry(&mut kept, entries[j].0.as_str(), entries[j].1.clone());
            }
            j += 1;
        }
        assert(rest.take(entries.len() as int) =~= rest);
        Json::Object(kept)
    } else {
        doc
    }
}

/// Hits without their sort keys.
pub open spec fn without_sort_keys(hits: Seq<JsonV>) -> Seq<JsonV> {
    hits.map_values(|hit: JsonV| hit.without(SORT_KEY_FIELD@))
}

/// A response whose hits are without their sort keys.
pub open spec fn stripped(response: JsonV) -> JsonV {
    match response.get("hits"@) {
        Some(JsonV::Array(hits)) => response.with("hits"@, JsonV::Array(without_sort_keys(hits))),
        _ => response,
    }
}

/// Takes the sort key out of every hit of a list.
pub fn strip_hits(hits: &mut Vec<Json>)
    ensures
        json::models(final(hits)@) == without_sort_keys(json::models(old(hits)@)),
{
    let ghost all = json::models(hits@);
    let mut i: usize = 0;
    while i < hits.len()
        invariant
            i <= hits.len(),
            hits@.len() == all.len(),
            forall|k: int| 0 <= k < i ==> (#[trigger] hits@[k])@ == all[k].without(SORT_KEY_FIELD@),
            forall|k: int| i <= k < all.len() ==> (#[trigger] hits@[k])@ == all[k],
        decreases hits.len() - i,
    {
        hits[i].remove(SORT_KEY_FIELD);
        i += 1;
    }
    assert(json::models(hits@) =~= without_sort_keys(all));
}

/// Takes the sort key out of every hit of a search response, so that no caller sees it.
pub fn strip_sort_keys(response: &mut Json)
    ensures
        final(response)@ == stripped(old(response)@),
{
    broadcast use json::lemma_model_by_parts;

    if let Json::Object(entries) = response {
        let ghost before = json::entry_models(entries@);
        let place: usize = find_key(entries, "hits");
        if place < entries.len() {
            let mut value: Json = Json::Null;
            proof {
                json::lemma_key_place(before, "hits"@);
            }
            std::mem::swap(&mut entries[place].1, &mut value);
            if let Json::Array(hits) = value {
                let mut hits: Vec<Json> = hits;
                strip_hits(&mut hits);
                value = Json::Array(hits);
            }
            std::mem::swap(&mut entries[place].1, &mut value);
            assert(json::entry_models(entries@) =~= match before[place as int].1 {
                JsonV::Array(hits) => json::with_entry(
                    before,
                    "hits"@,
                    JsonV::Array(without_sort_keys(hits)),
                ),
                _ => before,
            });
        }
    }
}

} // verus!
