//! What can go wrong, and whose fault it is.

use vstd::prelude::*;
use vstd::string::*;
use crate::text;
use crate::json::Json;
use crate::json::JsonV;
use crate::text::{count_text, holds_text, join_texts, uuid_text};

verus! {

/// The kind of an input or output failure.
#[derive(Debug, Clone, Copy, PartialEq, Eq, Structural)]
pub enum IoKind {
    NotFound,
    PermissionDenied,
    InvalidInput,
    InvalidData,
    Other,
}

/// A failure of the storage engine, with what it says.
#[derive(Debug, Clone, PartialEq, Eq)]
pub enum StoreError {
    /// A value that its field cannot hold.
    InvalidFieldValue(String),
    /// A field that the index does not carry.
    FieldNotFound(String),
    /// A query that the index cannot parse.
    QueryParser(String),
    /// An input or output failure.
    Io { kind: IoKind, message: String },
    /// A batch that could not be written.
    Serialization(String),
    /// Any other failure.
    Other(String),
}

impl StoreError {
    /// What the failure says.
    pub open spec fn says(self) -> Seq<char> {
        match self {
            StoreError::InvalidFieldValue(e) => e@,
            StoreError::FieldNotFound(e) => e@,
            StoreError::QueryParser(e) => e@,
            StoreError::Io { kind: _, message } => message@,
            StoreError::Serialization(e) => e@,
            StoreError::Other(e) => e@,
        }
    }

    /// What the failure says.
    pub fn message(&self) -> (text: &String)
        ensures
            text@ == self.says(),
    {
        match self {
            StoreError::InvalidFieldValue(e) => e,
            StoreError::FieldNotFound(e) => e,
            StoreError::QueryParser(e) => e,
            StoreError::Io { message, .. } => message,
            StoreError::Serialization(e) => e,
            StoreError::Other(e) => e,
        }
    }
}

/// Errors of node orchestration.
#[derive(Debug, Clone, PartialEq, Eq)]
pub enum OrchestratorError {
    Identity(String),
    Io { kind: IoKind, message: String },
    Storage(StoreError),
    ShardLimitExceeded { current: usize, max: usize },
    ShardAlreadyExists { shard_id: u128 },
    /// The caller asked to sort by a field the index cannot order on.
    UnsortableField { field: String, reason: String },
    /// Every clause was discarded, so the query that reached the engine was empty.
    UnrunnableQuery { notes: String },
    /// No shard could run the query, so the empty result it produced is not an answer.
    NoShardAnswered { index: String, reasons: String, caller_error: bool },
}

/// An error, as a value of the model.
pub enum ErrorV {
    Identity(Seq<char>),
    Io(IoKind, Seq<char>),
    /// Whether the engine refused a field value, and what it says.
    Storage(bool, Seq<char>),
    ShardLimitExceeded(usize, usize),
    ShardAlreadyExists(u128),
    UnsortableField(Seq<char>, Seq<char>),
    UnrunnableQuery(Seq<char>),
    NoShardAnswered(Seq<char>, Seq<char>, bool),
}

impl View for OrchestratorError {
    type V = ErrorV;

    open spec fn view(&self) -> ErrorV {
        match *self {
            OrchestratorError::Identity(e) => ErrorV::Identity(e@),
            OrchestratorError::Io { kind, message } => ErrorV::Io(kind, message@),
            OrchestratorError::Storage(e) => ErrorV::Storage(e is InvalidFieldValue, e.says()),
            OrchestratorError::ShardLimitExceeded { current, max } => ErrorV::ShardLimitExceeded(
                current,
                max,
            ),
            OrchestratorError::ShardAlreadyExists { shard_id } => ErrorV::ShardAlreadyExists(
                shard_id,
            ),
            OrchestratorError::UnsortableField { field, reason } => ErrorV::UnsortableField(
                field@,
                reason@,
            ),
            OrchestratorError::UnrunnableQuery { notes } => ErrorV::UnrunnableQuery(notes@),
            OrchestratorError::NoShardAnswered { index, reasons, caller_error } =>
                ErrorV::NoShardAnswered(index@, reasons@, caller_error),
        }
    }
}

/// What an error says.
pub open spec fn error_text(error: ErrorV) -> Seq<char> {
    match error {
        ErrorV::Identity(e) => "identity error: "@ + e,
        ErrorV::Io(_, message) => "io error: "@ + message,
        ErrorV::Storage(_, e) => "storage error: "@ + e,
        ErrorV::ShardLimitExceeded(current, max) => "shard limit exceeded: "@ + text::decimal(
            current as nat,
        ) + "/"@ + text::decimal(max as nat),
        ErrorV::ShardAlreadyExists(shard_id) => "shard already exists: "@ + text::uuid_chars(shard_id),
        ErrorV::UnsortableField(field, reason) => "cannot sort by '"@ + field + "': "@ + reason,
        ErrorV::UnrunnableQuery(notes) =>
            "no clause of this query can run against this index: "@ + notes,
        ErrorV::NoShardAnswered(index, reasons, _) =>
            "no shard could run this query against '"@ + index + "': "@ + reasons,
    }
}

/// Whether an error is the request's fault rather than this node's.
pub open spec fn blames_caller(error: ErrorV) -> bool {
    match error {
        ErrorV::Io(kind, _) => kind == IoKind::InvalidInput || kind == IoKind::InvalidData,
        ErrorV::UnsortableField(_, _) => true,
        ErrorV::UnrunnableQuery(_) => true,
        ErrorV::NoShardAnswered(_, _, _) => true,
        ErrorV::Storage(invalid_field_value, _) => invalid_field_value,
        _ => false,
    }
}

impl OrchestratorError {
    /// An input or output failure.
    pub fn io(kind: IoKind, message: String) -> (error: OrchestratorError)
        ensures
            error@ == ErrorV::Io(kind, message@),
    {
        OrchestratorError::Io { kind, message }
    }

    /// An input or output failure of no particular kind.
    pub fn other(message: &str) -> (error: OrchestratorError)
        ensures
            error@ == ErrorV::Io(IoKind::Other, message@),
    {
        OrchestratorError::Io { kind: IoKind::Other, message: String::from_str(message) }
    }

    /// Something asked for that is not there.
    pub fn not_found(message: &str) -> (error: OrchestratorError)
        ensures
            error@ == ErrorV::Io(IoKind::NotFound, message@),
    {
        OrchestratorError::Io { kind: IoKind::NotFound, message: String::from_str(message) }
    }

    /// What the error says.
    pub fn message(&self) -> (text: String)
        ensures
            text@ == error_text(self@),
    {
        match self {
            OrchestratorError::Identity(e) => {
                let mut text: String = String::from_str("identity error: ");
                text.append(e.as_str());
                text
            },
            OrchestratorError::Io { message, .. } => {
                let mut text: String = String::from_str("io error: ");
                text.append(message.as_str());
                text
            },
            OrchestratorError::Storage(e) => {
                let mut text: String = String::from_str("storage error: ");
                text.append(e.message().as_str());
                text
            },
            OrchestratorError::ShardLimitExceeded { current, max } => {
                let mut text: String = String::from_str("shard limit exceeded: ");
                text.append(count_text(*current).as_str());
                text.append("/");
                text.append(count_text(*max).as_str());
                text
            },
            OrchestratorError::ShardAlreadyExists { shard_id } => {
                let mut text: String = String::from_str("shard already exists: ");
                text.append(uuid_text(*shard_id).as_str());
                text
            },
            OrchestratorError::UnsortableField { field, reason } => {
                let mut text: String = String::from_str("cannot sort by '");
                text.append(field.as_str());
                text.append("': ");
                text.append(reason.as_str());
                text
            },
            OrchestratorError::UnrunnableQuery { notes } => {
                let mut text: String = String::from_str(
                    "no clause of this query can run against this index: ",
                );
                text.append(notes.as_str());
                text
            },
            OrchestratorError::NoShardAnswered { index, reasons, .. } => {
                let mut text: String = String::from_str("no shard could run this query against '");
                text.append(index.as_str());
                text.append("': ");
                text.append(reasons.as_str());
                text
            },
        }
    }
}

/// Whether a shard's failure is the request's fault rather than this node's.
///
/// Everything that crosses a shard arrives with a kind and a message, so the kind is the whole
/// classification: what the engine cannot answer is invalid input or invalid data, and anything
/// else is this node failing to read data it owns.
pub fn is_caller_error(error: &OrchestratorError) -> (callers: bool)
    ensures
        callers == blames_caller(error@),
{
    match error {
        OrchestratorError::Io { kind, .. } => match kind {
            IoKind::InvalidInput => true,
            IoKind::InvalidData => true,
            _ => false,
        },
        OrchestratorError::UnsortableField { .. } => true,
        OrchestratorError::UnrunnableQuery { .. } => true,
        OrchestratorError::NoShardAnswered { .. } => true,
        OrchestratorError::Storage(StoreError::InvalidFieldValue(_)) => true,
        _ => false,
    }
}

/// The failures of several shards, as values of the model.
pub open spec fn failure_models(failures: Seq<(u128, OrchestratorError)>) -> Seq<(u128, ErrorV)> {
    failures.map_values(|failure: (u128, OrchestratorError)| (failure.0, failure.1@))
}

/// The reason a shard's failure gives: what an input or output failure says by itself, and what
/// any other error says as a whole.
pub open spec fn failure_reason(error: ErrorV) -> Seq<char> {
    match error {
        ErrorV::Io(_, message) => message,
        _ => error_text(error),
    }
}

/// Texts in the order they first appear, each once.
pub open spec fn distinct_in_order(list: Seq<Seq<char>>) -> Seq<Seq<char>>
    decreases list.len(),
{
    if list.len() == 0 {
        Seq::empty()
    } else {
        let before = distinct_in_order(list.drop_last());
        if before.contains(list.last()) {
            before
        } else {
            before.push(list.last())
        }
    }
}

/// Adds a text to a list that does not hold it yet.
pub fn push_distinct(list: &mut Vec<String>, text: &str)
    ensures
        text::texts(final(list)@) == (if text::texts(old(list)@).contains(text@) {
            text::texts(old(list)@)
        } else {
            text::texts(old(list)@).push(text@)
        }),
{
    let ghost before = list@;
    if !holds_text(list, text) {
        list.push(String::from_str(text));
        assert(text::texts(list@) =~= text::texts(before).push(text@));
    }
}

/// Every reason that failures give.
pub open spec fn failure_reasons(failures: Seq<(u128, ErrorV)>) -> Seq<Seq<char>> {
    failures.map_values(|failure: (u128, ErrorV)| failure_reason(failure.1))
}

/// The refusal of a gather that no shard answered.
pub open spec fn gather_refusal(
    index: Seq<char>,
    answered: nat,
    failures: Seq<(u128, ErrorV)>,
) -> Option<ErrorV> {
    if answered > 0 || failures.len() == 0 {
        None
    } else {
        Some(
            ErrorV::NoShardAnswered(
                index,
                text::joined(distinct_in_order(failure_reasons(failures)), "; "@),
                forall|i: int|
                    0 <= i < failures.len() ==> blames_caller((#[trigger] failures[i]).1),
            ),
        )
    }
}

/// The refusal a gather owes its caller when not one shard could run the query.
///
/// A failed shard beside a successful one is a partial answer. With no successful shard there is
/// no answer to qualify. The reasons are told once each: every shard runs the same query, so they
/// fail the same way.
pub fn no_shard_answered(
    index: &str,
    shard_success: usize,
    failures: &Vec<(u128, OrchestratorError)>,
) -> (refusal: Option<OrchestratorError>)
    ensures
        refusal is Some <==> gather_refusal(
            index@,
            shard_success as nat,
            failure_models(failures@),
        ) is Some,
        refusal matches Some(error) ==> gather_refusal(
            index@,
            shard_success as nat,
            failure_models(failures@),
        ) == Some(error@),
{
    if shard_success > 0 || failures.len() == 0 {
        return None;
    }
    let ghost all = failure_models(failures@);
    let mut reasons: Vec<String> = Vec::new();
    let mut caller_error: bool = true;
    let mut i: usize = 0;
    assert(text::texts(reasons@) =~= distinct_in_order(failure_reasons(all).take(0)));
    while i < failures.len()
        invariant
            i <= failures.len(),
            all == failure_models(failures@),
            text::texts(reasons@) == distinct_in_order(failure_reasons(all).take(i as int)),
            caller_error == forall|k: int| 0 <= k < i ==> blames_caller((#[trigger] all[k]).1),
        decreases failures.len() - i,
    {
        let error: &OrchestratorError = &failures[i].1;
        let reason: String = match error {
            OrchestratorError::Io { message, .. } => message.clone(),
            _ => error.message(),
        };
        proof {
            let so_far = failure_reasons(all).take(i + 1);
            assert(so_far.drop_last() =~= failure_reasons(all).take(i as int));
            assert(so_far.last() == reason@);
            assert(all[i as int].1 == error@);
        }
        push_distinct(&mut reasons, reason.as_str());
        if !is_caller_error(error) {
            caller_error = false;
        }
        i += 1;
    }
    assert(failure_reasons(all).take(failures.len() as int) =~= failure_reasons(all));
    Some(
        OrchestratorError::NoShardAnswered {
            index: String::from_str(index),
            reasons: join_texts(&reasons, "; "),
            caller_error,
        },
    )
}

/// One line per failed shard, naming the shard.
pub open spec fn shard_notes(failures: Seq<(u128, ErrorV)>) -> Seq<Seq<char>> {
    failures.map_values(
        |failure: (u128, ErrorV)|
            "Shard "@ + text::uuid_chars(failure.0) + ": "@ + error_text(failure.1),
    )
}

/// The per-shard failures as a response reports them, one line each, naming the shard.
pub fn shard_error_notes(failures: &Vec<(u128, OrchestratorError)>) -> (notes: Vec<String>)
    ensures
        text::texts(notes@) == shard_notes(failure_models(failures@)),
{
    let ghost wanted = shard_notes(failure_models(failures@));
    let mut notes: Vec<String> = Vec::new();
    let mut i: usize = 0;
    while i < failures.len()
        invariant
            i <= failures.len(),
            wanted == shard_notes(failure_models(failures@)),
            text::texts(notes@) == wanted.take(i as int),
        decreases failures.len() - i,
    {
        let ghost before = notes@;
        let mut note: String = String::from_str("Shard ");
        note.append(uuid_text(failures[i].0).as_str());
        note.append(": ");
        note.append(failures[i].1.message().as_str());
        assert(note@ == wanted[i as int]);
        notes.push(note);
        i += 1;
        assert(text::texts(notes@) =~= text::texts(before).push(wanted[i - 1]));
        assert(wanted.take(i as int) =~= wanted.take(i - 1).push(wanted[i - 1]));
    }
    assert(wanted.take(failures.len() as int) =~= wanted);
    notes
}

// ---------------------------------------------------------------------------
// Errors between nodes
// ---------------------------------------------------------------------------

/// An error as one node tells it to another.
#[derive(Debug, Clone, PartialEq, Eq)]
pub enum RemoteError {
    Io(String),
    Identity(String),
    NotFound(String),
    InvalidInput(String),
    Other(String),
}

/// An error between nodes, as a value of the model.
pub enum RemoteV {
    Io(Seq<char>),
    Identity(Seq<char>),
    NotFound(Seq<char>),
    InvalidInput(Seq<char>),
    Other(Seq<char>),
}

impl View for RemoteError {
    type V = RemoteV;

    open spec fn view(&self) -> RemoteV {
        match *self {
            RemoteError::Io(e) => RemoteV::Io(e@),
            RemoteError::Identity(e) => RemoteV::Identity(e@),
            RemoteError::NotFound(e) => RemoteV::NotFound(e@),
            RemoteError::InvalidInput(e) => RemoteV::InvalidInput(e@),
            RemoteError::Other(e) => RemoteV::Other(e@),
        }
    }
}

/// How an error is told to another node.
pub open spec fn told(error: ErrorV) -> RemoteV {
    match error {
        ErrorV::Identity(e) => RemoteV::Identity(e),
        ErrorV::Io(IoKind::NotFound, message) => RemoteV::NotFound(message),
        ErrorV::Io(IoKind::InvalidInput, message) => RemoteV::InvalidInput(message),
        ErrorV::Io(_, message) => RemoteV::Io(message),
        ErrorV::Storage(_, e) => RemoteV::Other(e),
        ErrorV::ShardLimitExceeded(current, max) => RemoteV::InvalidInput(
            "shard limit exceeded "@ + text::decimal(current as nat) + "/"@ + text::decimal(max as nat),
        ),
        ErrorV::NoShardAnswered(_, _, caller_error) => if caller_error {
            RemoteV::InvalidInput(error_text(error))
        } else {
            RemoteV::Io(error_text(error))
        },
        _ => RemoteV::InvalidInput(error_text(error)),
    }
}

/// How an error told by another node is taken: a refusal stays a refusal.
pub open spec fn taken(error: RemoteV) -> ErrorV {
    match error {
        RemoteV::InvalidInput(e) => ErrorV::Io(IoKind::InvalidInput, e),
        RemoteV::Io(e) => ErrorV::Io(IoKind::Other, e),
        RemoteV::Identity(e) => ErrorV::Io(IoKind::Other, e),
        RemoteV::NotFound(e) => ErrorV::Io(IoKind::Other, e),
        RemoteV::Other(e) => ErrorV::Io(IoKind::Other, e),
    }
}

impl RemoteError {
    /// Tells an error to another node.
    pub fn tell(error: OrchestratorError) -> (remote: RemoteError)
        ensures
            remote@ == told(error@),
    {
        let text: String = error.message();
        match error {
            OrchestratorError::Identity(e) => RemoteError::Identity(e),
            OrchestratorError::Io { kind, message } => match kind {
                IoKind::NotFound => RemoteError::NotFound(message),
                IoKind::InvalidInput => RemoteError::InvalidInput(message),
                _ => RemoteError::Io(message),
            },
            OrchestratorError::Storage(e) => RemoteError::Other(e.message().clone()),
            OrchestratorError::ShardLimitExceeded { current, max } => {
                let mut text: String = String::from_str("shard limit exceeded ");
                text.append(count_text(current).as_str());
                text.append("/");
                text.append(count_text(max).as_str());
                RemoteError::InvalidInput(text)
            },
            OrchestratorError::NoShardAnswered { caller_error, .. } => if caller_error {
                RemoteError::InvalidInput(text)
            } else {
                RemoteError::Io(text)
            },
            _ => RemoteError::InvalidInput(text),
        }
    }

    /// Takes an error that another node told.
    pub fn take(self) -> (error: OrchestratorError)
        ensures
            error@ == taken(self@),
    {
        match self {
            RemoteError::InvalidInput(e) => OrchestratorError::io(IoKind::InvalidInput, e),
            RemoteError::Io(e) => OrchestratorError::io(IoKind::Other, e),
            RemoteError::Identity(e) => OrchestratorError::io(IoKind::Other, e),
            RemoteError::NotFound(e) => OrchestratorError::io(IoKind::Other, e),
            RemoteError::Other(e) => OrchestratorError::io(IoKind::Other, e),
        }
    }
}

/// Between nodes a refusal stays distinguishable from a failure: what is told of as invalid input
/// is taken as the caller's fault, and nothing else is.
pub proof fn law_a_refusal_stays_a_refusal(error: ErrorV)
    ensures
        blames_caller(taken(told(error))) == (told(error) is InvalidInput),
        error matches ErrorV::NoShardAnswered(_, _, caller_error) ==> blames_caller(
            taken(told(error)),
        ) == caller_error,
        error is UnsortableField || error is UnrunnableQuery ==> blames_caller(taken(told(error))),
        error matches ErrorV::Io(kind, message) && kind == IoKind::InvalidInput ==> taken(
            told(error),
        ) == error,
{
}

/// A gather that one shard answered is never refused, and one that failed everywhere always is.
pub proof fn law_a_gather_is_refused_exactly_when_nothing_answered(
    index: Seq<char>,
    answered: nat,
    failures: Seq<(u128, ErrorV)>,
)
    ensures
        gather_refusal(index, answered, failures) is Some <==> answered == 0 && failures.len() > 0,
{
}

// ---------------------------------------------------------------------------
// Notes on a response
// ---------------------------------------------------------------------------

/// Response key listing the clauses the query parser dropped: absent on a clean parse.
pub const DISCARDED_CLAUSES_FIELD: &'static str = "_discarded_clauses";

/// Response key naming the field whose sort order is an approximation: absent when it is exact.
pub const APPROXIMATE_SORT_FIELD: &'static str = "_approximate_sort";

/// A list of texts as a JSON value.
pub open spec fn text_array(list: Seq<Seq<char>>) -> JsonV {
    JsonV::Array(list.map_values(|t: Seq<char>| JsonV::Text(t)))
}

/// A response with a list of texts under a key, where there are any.
pub open spec fn with_texts(response: JsonV, key: Seq<char>, list: Seq<Seq<char>>) -> JsonV {
    if list.len() == 0 {
        response
    } else {
        response.with(key, text_array(list))
    }
}

/// Reports the shards that could not be read, and only then: absent means every shard answered.
pub fn attach_shard_errors(response: &mut Json, errors: Vec<String>)
    ensures
        final(response)@ == with_texts(old(response)@, "errors"@, text::texts(errors@)),
{
    if errors.len() > 0 {
        response.put("errors", Json::text_list(&errors));
    }
}

/// Reports the clauses the query parser dropped, if it dropped any.
pub fn attach_discarded(response: &mut Json, discarded: Vec<String>)
    ensures
        final(response)@ == with_texts(
            old(response)@,
            DISCARDED_CLAUSES_FIELD@,
            text::texts(discarded@),
        ),
{
    if discarded.len() > 0 {
        response.put(DISCARDED_CLAUSES_FIELD, Json::text_list(&discarded));
    }
}

/// A response naming the field whose order is approximate, if one is.
pub open spec fn with_approximate_sort(response: JsonV, field: Option<Seq<char>>) -> JsonV {
    match field {
        Some(name) => response.with(APPROXIMATE_SORT_FIELD@, JsonV::Text(name)),
        None => response,
    }
}

/// An optional text, as a value of the model.
pub open spec fn opt_text(text: Option<String>) -> Option<Seq<char>> {
    match text {
        Some(t) => Some(t@),
        None => None,
    }
}

/// Names the field whose order is approximate, if the order returned is.
pub fn attach_approximate_sort(response: &mut Json, field: Option<String>)
    ensures
        final(response)@ == with_approximate_sort(old(response)@, opt_text(field)),
{
    if let Some(name) = field {
        response.put(APPROXIMATE_SORT_FIELD, Json::Text(name));
    }
}

} // verus!
