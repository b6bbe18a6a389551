//! What callers ask of a node, and what shards are asked in turn.

use vstd::prelude::*;
use vstd::string::*;
use crate::{errors, json};
use crate::hits::{Score, SortSpec};
use crate::json::{Json, JsonV};
use crate::schema::{IndexSchema, copy_opt};

verus! {

/// A document on its way to an index.
///
/// The key travels beside the body, which need not repeat it.
#[derive(Debug, PartialEq)]
pub struct DocPayload {
    pub id: String,
    pub routing_key: Option<String>,
    pub doc: Json,
}

/// A document on its way to an index, as a value of the model.
pub struct DocV {
    pub id: Seq<char>,
    pub routing_key: Option<Seq<char>>,
    pub doc: JsonV,
}

impl View for DocPayload {
    type V = DocV;

    open spec fn view(&self) -> DocV {
        DocV { id: self.id@, routing_key: errors::opt_text(self.routing_key), doc: self.doc@ }
    }
}

impl Clone for DocPayload {
    fn clone(&self) -> (copy: Self)
        ensures
            copy@ == self@,
    {
        DocPayload {
            id: self.id.clone(),
            routing_key: copy_opt(&self.routing_key),
            doc: self.doc.clone(),
        }
    }
}

/// One document to remove, as a bulk delete names it.
///
/// A bare key is the whole of it on an index that routes by the key. `routing_key` carries what
/// the write used where the index routes by something else.
#[derive(Debug, Clone, PartialEq, Eq)]
pub enum DeletePayload {
    Id(String),
    Keyed { id: String, routing_key: Option<String> },
}

/// One document to remove, as a value of the model.
pub struct DeleteV {
    pub id: Seq<char>,
    pub routing_key: Option<Seq<char>>,
}

impl View for DeletePayload {
    type V = DeleteV;

    open spec fn view(&self) -> DeleteV {
        match *self {
            DeletePayload::Id(id) => DeleteV { id: id@, routing_key: None },
            DeletePayload::Keyed { id, routing_key } => DeleteV {
                id: id@,
                routing_key: errors::opt_text(routing_key),
            },
        }
    }
}

/// What an entry of a bulk delete says: a key by itself, or an object naming a key and perhaps
/// what it routes by.
pub open spec fn delete_entry(value: JsonV) -> Option<DeleteV> {
    match value {
        JsonV::Text(id) => Some(DeleteV { id, routing_key: None }),
        JsonV::Object(_) => match value.get("id"@) {
            Some(JsonV::Text(id)) => match value.get("routing_key"@) {
                None => Some(DeleteV { id, routing_key: None }),
                Some(JsonV::Null) => Some(DeleteV { id, routing_key: None }),
                Some(JsonV::Text(key)) => Some(DeleteV { id, routing_key: Some(key) }),
                _ => None,
            },
            _ => None,
        },
        _ => None,
    }
}

/// An entry of a bulk delete as it is written: a bare key, or an object.
pub open spec fn entry_written(payload: DeletePayload) -> JsonV {
    match payload {
        DeletePayload::Id(id) => JsonV::Text(id@),
        DeletePayload::Keyed { id, routing_key } => JsonV::Object(
            seq![
                ("id"@, JsonV::Text(id@)),
                (
                    "routing_key"@,
                    match routing_key {
                        Some(key) => JsonV::Text(key@),
                        None => JsonV::Null,
                    },
                ),
            ],
        ),
    }
}

impl DeletePayload {
    /// The key of the document.
    pub fn id(&self) -> (id: &str)
        ensures
            id@ == self@.id,
    {
        match self {
            DeletePayload::Id(id) => id.as_str(),
            DeletePayload::Keyed { id, .. } => id.as_str(),
        }
    }

    /// What the document routes by, where the caller says.
    pub fn routing_key(&self) -> (key: Option<&str>)
        ensures
            match key {
                Some(k) => self@.routing_key == Some(k@),
                None => self@.routing_key is None,
            },
    {
        match self {
            DeletePayload::Id(_) => None,
            DeletePayload::Keyed { routing_key, .. } => match routing_key {
                Some(key) => Some(key.as_str()),
                None => None,
            },
        }
    }

    /// Reads an entry of a bulk delete: a bare key stays a bare key.
    pub fn from_json(value: &Json) -> (entry: Option<DeletePayload>)
        ensures
            entry is Some <==> delete_entry(value@) is Some,
            entry matches Some(payload) ==> delete_entry(value@) == Some(payload@),
            entry matches Some(payload) ==> (payload is Id <==> value@ is Text),
    {
        match value {
            Json::Text(id) => Some(DeletePayload::Id(id.clone())),
            Json::Object(_) => {
                if let Some(Json::Text(id)) = value.get("id") {
                    match value.get("routing_key") {
                        None => Some(DeletePayload::Keyed { id: id.clone(), routing_key: None }),
                        Some(Json::Null) => Some(
                            DeletePayload::Keyed { id: id.clone(), routing_key: None },
                        ),
                        Some(Json::Text(key)) => Some(
                            DeletePayload::Keyed {
                                id: id.clone(),
                                routing_key: Some(key.clone()),
                            },
                        ),
                        _ => None,
                    }
                } else {
                    None
                }
            },
            _ => None,
        }
    }

    /// Writes the entry in the shape it came in, so a forwarded batch reaches a peer as the caller
    /// sent it. What is written reads back as what it was.
    pub fn to_json(&self) -> (value: Json)
        ensures
            value@ == entry_written(*self),
            delete_entry(value@) == Some(self@),
    {
        match self {
            DeletePayload::Id(id) => Json::Text(id.clone()),
            DeletePayload::Keyed { id, routing_key } => {
                let mut value: Json = Json::Object(Vec::new());
                proof {
                    json::lemma_model_by_parts(value);
                    assert(json::entry_models(value->Object_0@) =~= Seq::empty());
                    json::lemma_key_place(Seq::<(Seq<char>, JsonV)>::empty(), "id"@);
                }
                let ghost nothing = Seq::<(Seq<char>, JsonV)>::empty();
                value.put("id", Json::Text(id.clone()));
                let ghost one = json::with_entry(nothing, "id"@, JsonV::Text(id@));
                let key: Json = match routing_key {
                    Some(key) => Json::Text(key.clone()),
                    None => Json::Null,
                };
                let ghost key_value = key@;
                value.put("routing_key", key);
                proof {
                    reveal_strlit("id");
                    reveal_strlit("routing_key");
                    assert("id"@.len() != "routing_key"@.len());
                    json::lemma_with_entry_read_back(nothing, "id"@, JsonV::Text(id@), "routing_key"@);
                    json::lemma_with_entry_read_back(one, "routing_key"@, key_value, "id"@);
                    json::lemma_key_place(one, "routing_key"@);
                    assert(value@->Object_0 =~= entry_written(*self)->Object_0);
                }
                value
            },
        }
    }
}

/// A request to write one document into a shard.
#[derive(Debug, Clone, PartialEq)]
pub struct WriteRequest {
    pub index: String,
    /// The key; a request that leaves it empty takes it from the body.
    pub id: String,
    pub routing_key: String,
    pub doc: Json,
}

/// The answer to a write.
#[derive(Debug, Clone, Copy, PartialEq, Eq)]
pub struct WriteReply {
    pub sequence: u64,
}

/// A request to write several documents into a shard.
#[derive(Debug, Clone, PartialEq)]
pub struct BatchWriteRequest {
    pub index: String,
    pub docs: Vec<DocPayload>,
}

/// The answer to a batch of writes.
#[derive(Debug, Clone, PartialEq, Eq)]
pub struct BatchWriteReply {
    pub items_written: u64,
    pub errors: Vec<String>,
}

/// A request to search a shard.
#[derive(Debug, Clone, PartialEq, Eq)]
pub struct SearchRequest {
    pub index: String,
    pub query: String,
    pub limit: Option<usize>,
    pub sort: Option<SortSpec>,
}

/// A request for the statistics of a shard.
#[derive(Debug, Clone, Copy, PartialEq, Eq)]
pub struct GetShardStats {
    pub include_data_size: bool,
}

/// A proposal to create a shard on this node.
#[derive(Debug, Clone, Copy, PartialEq, Eq)]
pub struct ProposeShard {
    pub shard_id: u128,
}

/// One hit of a shard.
#[derive(Debug, Clone, PartialEq)]
pub struct SearchHit {
    pub score: Score,
    pub doc: Json,
}

/// What a shard answers to a search.
#[derive(Debug, Clone, PartialEq)]
pub struct SearchReply {
    pub hits: Vec<SearchHit>,
    pub total_hits: usize,
    /// Clauses the query parser dropped.
    pub discarded: Vec<String>,
    /// The field whose order is approximate, if the sort could not be exact.
    pub approximate_sort: Option<String>,
    /// Whether nothing of the query survived the parse.
    pub emptied: bool,
}

/// What a caller asks of a node.
#[allow(inconsistent_fields)]
#[derive(Debug, Clone, PartialEq)]
pub enum ClientOp {
    /// Searches an index.
    Search {
        index: String,
        query: String,
        limit: Option<usize>,
        /// How many ordered hits to skip. Widened away before the request is forwarded: the node
        /// that received it skips once, after merging.
        offset: Option<usize>,
        fields: Option<Vec<String>>,
        sort: Option<SortSpec>,
    },
    /// Searches an index and streams the answer.
    Stream {
        index: String,
        query: String,
        limit: Option<usize>,
        fields: Option<Vec<String>>,
        sort: Option<SortSpec>,
    },
    /// Writes a document.
    Write { index: String, id: String, routing_key: Option<String>, doc: Json },
    /// Writes several documents.
    BulkWrite { index: String, docs: Vec<DocPayload> },
    /// Removes several documents by key.
    BulkDelete { index: String, docs: Vec<DeletePayload> },
    /// Removes a document by its key.
    Delete { index: String, id: String, routing_key: Option<String> },
    /// Creates or replaces what an index declares.
    CreateConfig { index: String, schema: IndexSchema },
    /// Sets whether named fields of an index are indexed.
    UpdateSchema { index: String, field_updates: Vec<(String, bool)> },
    /// Asks what an index declares.
    GetConfig { index: String },
    /// Parses a query against an index without running it.
    ValidateQuery { index: String, query: String },
    /// Lists this node's indexes with their statistics.
    ListIndexes { include_data_size: bool },
    /// Asks who this node is.
    GetIdentity,
    /// Lists the indexes of the whole cluster.
    ListClusterIndexes { include_data_size: bool },
    /// Deletes an index and all its data.
    DeleteIndex { index: String, delete_schema: bool },
}

} // verus!
