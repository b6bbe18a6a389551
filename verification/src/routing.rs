//! Which shard a document belongs to.

use vstd::prelude::*;
use vstd::string::*;
use crate::{errors, json, text};
use crate::errors::{ErrorV, IoKind, OrchestratorError};
use crate::json::{Json, JsonV, json_text};
use crate::schema::{IndexSchema, SchemaV};
use crate::text::{push_hex_byte, same_text, uuid_text};

verus! {

/// How many bytes of a document stand in for a key where it has none.
pub const MAX_PREFIX_LEN: usize = 64;

/// The text a document's routing field holds, if it holds one.
pub open spec fn routing_value(doc: JsonV, field: Seq<char>) -> Option<Seq<char>> {
    match doc.get(field) {
        Some(JsonV::Text(text)) => Some(text),
        Some(JsonV::Number(n)) => Some(json::number_chars(n)),
        Some(JsonV::Bool(b)) => Some(if b {
            "true"@
        } else {
            "false"@
        }),
        _ => None,
    }
}

/// The value of a document's routing field, as a text.
pub fn extract_routing_value(doc: &Json, field_name: &str) -> (value: Option<String>)
    ensures
        errors::opt_text(value) == routing_value(doc@, field_name@),
{
    match doc.get(field_name) {
        Some(Json::Text(text)) => Some(text.clone()),
        Some(Json::Number(n)) => Some(n.written()),
        Some(Json::Bool(b)) => Some(
            if *b {
                String::from_str("true")
            } else {
                String::from_str("false")
            },
        ),
        _ => None,
    }
}

/// The key that bytes stand for: their first part in hexadecimal.
pub open spec fn byte_key(bytes: Seq<u8>) -> Seq<char> {
    if bytes.len() == 0 {
        "empty-doc"@
    } else if bytes.len() > MAX_PREFIX_LEN {
        text::hex_of(bytes.take(MAX_PREFIX_LEN as int))
    } else {
        text::hex_of(bytes)
    }
}

/// The key that bytes stand for.
pub fn routing_key_of_bytes(bytes: &[u8]) -> (key: String)
    ensures
        key@ == byte_key(bytes@),
{
    if bytes.len() == 0 {
        return String::from_str("empty-doc");
    }
    let end: usize = if bytes.len() > MAX_PREFIX_LEN {
        MAX_PREFIX_LEN
    } else {
        bytes.len()
    };
    let ghost all = bytes@;
    let mut key: String = String::new();
    let mut i: usize = 0;
    assert(key@ =~= text::hex_of(all.take(0)));
    while i < end
        invariant
            i <= end <= bytes@.len(),
            all == bytes@,
            key@ == text::hex_of(all.take(i as int)),
        decreases end - i,
    {
        proof {
            assert(all.take(i + 1).drop_last() =~= all.take(i as int));
            assert(all.take(i + 1).last() == all[i as int]);
        }
        push_hex_byte(&mut key, bytes[i]);
        i += 1;
    }
    assert(all.take(all.len() as int) =~= all);
    key
}

/// The key that a document by itself stands for: the text of its own `id`, else the first bytes of
/// its JSON text in hexadecimal.
pub open spec fn derived_key(doc: JsonV) -> Seq<char> {
    match doc.get("id"@) {
        Some(JsonV::Text(id)) => id,
        _ => byte_key(vstd::utf8::encode_utf8(json::json_chars(doc))),
    }
}

/// Derives a key from what a document says, the same for the same document: its `id` where that is
/// a text, else the first bytes of its JSON text in hexadecimal.
pub fn derive_routing_key_from_doc(doc: &Json) -> (key: Option<String>)
    ensures
        errors::opt_text(key) == Some(derived_key(doc@)),
{
    if let Some(Json::Text(id)) = doc.get("id") {
        return Some(id.clone());
    }
    let text: String = json_text(doc);
    Some(routing_key_of_bytes(text.as_str().as_bytes()))
}

/// The key a write is routed by: what the document's routing field holds, else what the caller
/// asked for, else the document key, else a key derived from the document.
pub open spec fn write_key(
    schema: SchemaV,
    id: Seq<char>,
    routing_key: Option<Seq<char>>,
    doc: JsonV,
) -> Seq<char> {
    match routing_value(doc, schema.routes_by()) {
        Some(value) => value,
        None => match routing_key {
            Some(key) => key,
            None => if id.len() > 0 {
                id
            } else {
                derived_key(doc)
            },
        },
    }
}

/// The key a write is routed by, in the order of precedence that decides it.
///
/// Whatever routes a document has to reach the same shard every time, or one key lands in two
/// places. The document's own routing field comes first, so a caller cannot move a document off
/// the shard its schema puts it on.
pub fn effective_routing_key(
    schema: &IndexSchema,
    id: &str,
    routing_key: Option<String>,
    doc: &Json,
) -> (key: Option<String>)
    ensures
        errors::opt_text(key) == Some(write_key(schema@, id@, errors::opt_text(routing_key), doc@)),
{
    if let Some(value) = extract_routing_value(doc, schema.get_routing_field()) {
        return Some(value);
    }
    if let Some(key) = routing_key {
        return Some(key);
    }
    if !id.is_empty() {
        return Some(String::from_str(id));
    }
    derive_routing_key_from_doc(doc)
}

/// What is said of a delete that nothing routes.
pub open spec fn delete_refusal(routing_field: Seq<char>, id: Seq<char>) -> Seq<char> {
    "index routes by '"@ + routing_field
        + "', which is not the document key, so a delete must              carry the same routing_key the write used — read it off the document with a search              for id:"@
        + id
}

/// Whether an index routes by the document key, under its own name or another.
pub open spec fn routes_by_key(schema: SchemaV) -> bool {
    schema.routes_by() == "id"@ || schema.is_shadow(schema.routes_by())
}

/// The key a delete is routed by, or why it cannot be routed.
pub open spec fn delete_key(
    schema: SchemaV,
    id: Seq<char>,
    routing_key: Option<Seq<char>>,
) -> Result<Seq<char>, ErrorV> {
    match routing_key {
        Some(key) => Ok(key),
        None => if routes_by_key(schema) {
            Ok(id)
        } else {
            Err(ErrorV::Io(IoKind::InvalidInput, delete_refusal(schema.routes_by(), id)))
        },
    }
}

/// The key a delete is routed by, or the reason it cannot be routed.
///
/// A delete has no document. Where the index routes by the document key, the key routes it, as it
/// routed the write; where it routes by some other field, the caller has to supply what the write
/// used.
pub fn effective_delete_routing_key(
    schema: &IndexSchema,
    id: &str,
    routing_key: Option<String>,
) -> (key: Result<String, OrchestratorError>)
    ensures
        match key {
            Ok(k) => delete_key(schema@, id@, errors::opt_text(routing_key)) == Ok::<_, ErrorV>(k@),
            Err(e) => delete_key(schema@, id@, errors::opt_text(routing_key)) == Err::<Seq<char>, _>(e@),
        },
{
    if let Some(key) = routing_key {
        return Ok(key);
    }
    let routing_field: &str = schema.get_routing_field();
    if same_text(routing_field, "id") || schema.is_shadow_field(routing_field) {
        return Ok(String::from_str(id));
    }
    let mut why: String = String::from_str("index routes by '");
    why.append(routing_field);
    why.append(
        "', which is not the document key, so a delete must              carry the same routing_key the write used — read it off the document with a search              for id:",
    );
    why.append(id);
    Err(OrchestratorError::io(IoKind::InvalidInput, why))
}

/// A delete reaches the shard its write reached: on an index that routes by the document key, with
/// no key of the caller's, both go by the document key, wherever the document says its key or
/// leaves it out; and where the document is silent and the caller names a key, both go by that.
pub proof fn law_a_delete_routes_where_its_write_did(
    schema: SchemaV,
    id: Seq<char>,
    doc: JsonV,
    caller_key: Seq<char>,
)
    requires
        id.len() > 0,
        routes_by_key(schema),
        routing_value(doc, schema.routes_by()) matches Some(value) ==> value == id,
    ensures
        delete_key(schema, id, None) == Ok::<_, ErrorV>(write_key(schema, id, None, doc)),
        routing_value(doc, schema.routes_by()) is None ==> delete_key(schema, id, Some(caller_key))
            == Ok::<_, ErrorV>(write_key(schema, id, Some(caller_key), doc)),
{
}

/// A caller cannot move a document off the shard its own routing field puts it on.
pub proof fn law_the_document_outranks_the_caller(
    schema: SchemaV,
    id: Seq<char>,
    other_id: Seq<char>,
    one_key: Option<Seq<char>>,
    other_key: Option<Seq<char>>,
    doc: JsonV,
)
    requires
        routing_value(doc, schema.routes_by()) is Some,
    ensures
        write_key(schema, id, one_key, doc) == write_key(schema, other_id, other_key, doc),
{
}

/// Where a keyed write goes: to the shard that owns the key, or to the first there is where
/// nothing owns it.
pub open spec fn chosen_shard(
    has_key: bool,
    owner: Option<u128>,
    first_shard: Option<u128>,
) -> Result<u128, ErrorV> {
    if !has_key {
        Err(ErrorV::Io(IoKind::InvalidInput, "Missing routing key for write"@))
    } else {
        match owner {
            Some(shard) => Ok(shard),
            None => match first_shard {
                Some(shard) => Ok(shard),
                None => Err(ErrorV::Io(IoKind::NotFound, "No shard selected"@)),
            },
        }
    }
}

/// Routes a write to a shard.
///
/// `owner` is the shard that the ring gives for the key, `first_shard` the first shard there is.
pub fn route_write(
    routing_key: Option<&str>,
    owner: Option<u128>,
    first_shard: Option<u128>,
) -> (target: Result<u128, OrchestratorError>)
    ensures
        match target {
            Ok(shard) => chosen_shard(routing_key is Some, owner, first_shard) == Ok::<_, ErrorV>(
                shard,
            ),
            Err(e) => chosen_shard(routing_key is Some, owner, first_shard) == Err::<u128, _>(e@),
        },
{
    if routing_key.is_none() {
        return Err(
            OrchestratorError::io(
                IoKind::InvalidInput,
                String::from_str("Missing routing key for write"),
            ),
        );
    }
    match owner {
        Some(shard) => Ok(shard),
        None => match first_shard {
            Some(shard) => Ok(shard),
            None => Err(OrchestratorError::not_found("No shard selected")),
        },
    }
}

/// The name an orchestrator is reachable under from other nodes.
pub fn orchestrator_remote_name(node_id: u128) -> (name: String)
    ensures
        name@ == "orchestrator-"@ + text::uuid_chars(node_id),
{
    let mut name: String = String::from_str("orchestrator-");
    name.append(uuid_text(node_id).as_str());
    name
}

// ---------------------------------------------------------------------------
// Directories
// ---------------------------------------------------------------------------

/// The directory a shard is kept in, of several: the first half of its identifier decides.
pub open spec fn directory_of(shard_id: u128, directories: nat) -> int {
    (shard_id as int / 0x1_0000_0000_0000_0000) % (directories as int)
}

/// The directory a shard is kept in: the same for the same shard wherever it is asked.
pub fn directory_index(shard_id: u128, directories: usize) -> (index: usize)
    requires
        directories > 0,
    ensures
        index == directory_of(shard_id, directories as nat),
        index < directories,
{
    let first_half: u128 = shard_id / 0x1_0000_0000_0000_0000u128;
    (first_half % (directories as u128)) as usize
}

/// The name of a shard's own directory.
pub fn shard_directory_name(shard_id: u128) -> (name: String)
    ensures
        name@ == "shard-"@ + text::uuid_chars(shard_id),
{
    let mut name: String = String::from_str("shard-");
    name.append(uuid_text(shard_id).as_str());
    name
}

/// How many of several shards are kept in a directory.
pub open spec fn kept_in(shards: Seq<u128>, directories: nat, directory: int) -> nat {
    shards.filter(|shard: u128| directory_of(shard, directories) == directory).len()
}

/// Whether a directory is the one a new shard belongs in: none keeps fewer, and each before it
/// keeps more.
pub open spec fn is_least_loaded(shards: Seq<u128>, directories: nat, index: int) -> bool {
    &&& 0 <= index < directories
    &&& forall|other: int|
        0 <= other < directories ==> kept_in(shards, directories, index) <= #[trigger] kept_in(
            shards,
            directories,
            other,
        )
    &&& forall|other: int|
        0 <= other < index ==> kept_in(shards, directories, index) < #[trigger] kept_in(
            shards,
            directories,
            other,
        )
}

/// The directory that keeps the fewest shards, the first of them where several do. None where
/// there is no directory.
pub fn least_loaded_directory(shards: &Vec<u128>, directories: usize) -> (target: Option<usize>)
    ensures
        target is None <==> directories == 0,
        target matches Some(index) ==> is_least_loaded(
            shards@,
            directories as nat,
            index as int,
        ),
{
    if directories == 0 {
        return None;
    }
    let mut counts: Vec<usize> = Vec::new();
    let mut d: usize = 0;
    while d < directories
        invariant
            d <= directories,
            counts@.len() == d,
            forall|k: int| 0 <= k < d ==> #[trigger] counts@[k] == 0,
        decreases directories - d,
    {
        counts.push(0);
        d += 1;
    }
    let ghost all = shards@;
    let mut i: usize = 0;
    proof {
        assert forall|k: int| 0 <= k < directories implies #[trigger] counts@[k] == kept_in(
            all.take(0),
            directories as nat,
            k,
        ) by {
            reveal(Seq::filter);
            assert(all.take(0).len() == 0);
        }
    }
    while i < shards.len()
        invariant
            i <= shards.len(),
            directories > 0,
            all == shards@,
            counts@.len() == directories,
            forall|k: int|
                0 <= k < directories ==> #[trigger] counts@[k] == kept_in(
                    all.take(i as int),
                    directories as nat,
                    k,
                ),
            forall|k: int| 0 <= k < directories ==> #[trigger] counts@[k] <= i,
        decreases shards.len() - i,
    {
        let place: usize = directory_index(shards[i], directories);
        let ghost before = counts@;
        let count: usize = counts[place];
        counts.set(place, count + 1);
        proof {
            assert forall|k: int| 0 <= k < directories implies #[trigger] counts@[k] == kept_in(
                all.take(i + 1),
                directories as nat,
                k,
            ) by {
                let here = |shard: u128| directory_of(shard, directories as nat) == k;
                assert(all.take(i + 1) =~= all.take(i as int).push(all[i as int]));
                all.take(i as int).lemma_filter_push(all[i as int], here);
                assert(before[k] == kept_in(all.take(i as int), directories as nat, k));
            }
        }
        i += 1;
    }
    assert(all.take(shards.len() as int) =~= all);
    let mut best: usize = 0;
    let mut c: usize = 1;
    while c < directories
        invariant
            1 <= c <= directories,
            best < c,
            counts@.len() == directories,
            forall|k: int| 0 <= k < c ==> counts@[best as int] <= #[trigger] counts@[k],
            forall|k: int| 0 <= k < best ==> counts@[best as int] < #[trigger] counts@[k],
        decreases directories - c,
    {
        if counts[c] < counts[best] {
            best = c;
        }
        c += 1;
    }
    proof {
        assert forall|other: int| 0 <= other < directories implies kept_in(
            all,
            directories as nat,
            best as int,
        ) <= #[trigger] kept_in(all, directories as nat, other) by {
            assert(counts@[best as int] <= counts@[other]);
        }
        assert forall|other: int| 0 <= other < best implies kept_in(
            all,
            directories as nat,
            best as int,
        ) < #[trigger] kept_in(all, directories as nat, other) by {
            assert(counts@[best as int] < counts@[other]);
        }
    }
    Some(best)
}

/// Whether a freshly made identifier puts its shard where the load is lowest.
pub fn balances(candidate: u128, shards: &Vec<u128>, directories: usize) -> (balanced: bool)
    ensures
        balanced == (directories == 0 || is_least_loaded(
            shards@,
            directories as nat,
            directory_of(candidate, directories as nat),
        )),
{
    match least_loaded_directory(shards, directories) {
        None => true,
        Some(target) => {
            let index: usize = directory_index(candidate, directories);
            proof {
                if is_least_loaded(shards@, directories as nat, index as int) && index != target {
                    assert(kept_in(shards@, directories as nat, index as int) <= kept_in(
                        shards@,
                        directories as nat,
                        target as int,
                    ));
                    assert(kept_in(shards@, directories as nat, target as int) <= kept_in(
                        shards@,
                        directories as nat,
                        index as int,
                    ));
                }
            }
            index == target
        },
    }
}

} // verus!
