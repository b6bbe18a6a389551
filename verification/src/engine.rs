//! What a worker does with an operation, and what it leaves to the node.

use vstd::prelude::*;
use crate::router;
use crate::hits::{SearchWindow, SortSpec};
use crate::json::Json;
use crate::ops::ClientOp;

verus! {

/// What a worker does with an operation.
#[derive(Debug, PartialEq)]
pub enum EngineStep {
    /// Writes a document, as far as the schema already covers it.
    Write { index: String, id: String, routing_key: Option<String>, doc: Json },
    /// Searches an index for a page.
    Search {
        index: String,
        query: String,
        window: SearchWindow,
        fields: Option<Vec<String>>,
        sort: Option<SortSpec>,
    },
    /// Removes a document.
    Delete { index: String, id: String, routing_key: Option<String> },
    /// Hands the operation back whole, for the node that owns what it touches.
    Defer(ClientOp),
}

/// A count, or a default.
pub open spec fn count_or(count: Option<usize>, default: usize) -> usize {
    match count {
        Some(n) => n,
        None => default,
    }
}

/// What a worker does with an operation. A stream has no page to ask for, so it starts at the front.
pub open spec fn engine_step(op: ClientOp, default_limit: usize) -> EngineStep {
    match op {
        ClientOp::Write { index, id, routing_key, doc } => EngineStep::Write {
            index,
            id,
            routing_key,
            doc,
        },
        ClientOp::Search { index, query, limit, offset, fields, sort } => EngineStep::Search {
            index,
            query,
            window: SearchWindow {
                offset: count_or(offset, 0),
                limit: count_or(limit, default_limit),
            },
            fields,
            sort,
        },
        ClientOp::Stream { index, query, limit, fields, sort } => EngineStep::Search {
            index,
            query,
            window: SearchWindow { offset: 0, limit: count_or(limit, default_limit) },
            fields,
            sort,
        },
        ClientOp::Delete { index, id, routing_key } => EngineStep::Delete {
            index,
            id,
            routing_key,
        },
        other => EngineStep::Defer(other),
    }
}

/// Plans what a worker does with an operation.
pub fn plan_engine(op: ClientOp, default_limit: usize) -> (step: EngineStep)
    ensures
        step == engine_step(op, default_limit),
{
    match op {
        ClientOp::Write { index, id, routing_key, doc } => EngineStep::Write {
            index,
            id,
            routing_key,
            doc,
        },
        ClientOp::Search { index, query, limit, offset, fields, sort } => EngineStep::Search {
            index,
            query,
            window: SearchWindow {
                offset: match offset {
                    Some(n) => n,
                    None => 0,
                },
                limit: match limit {
                    Some(n) => n,
                    None => default_limit,
                },
            },
            fields,
            sort,
        },
        ClientOp::Stream { index, query, limit, fields, sort } => EngineStep::Search {
            index,
            query,
            window: SearchWindow::first(
                match limit {
                    Some(n) => n,
                    None => default_limit,
                },
            ),
            fields,
            sort,
        },
        ClientOp::Delete { index, id, routing_key } => EngineStep::Delete {
            index,
            id,
            routing_key,
        },
        other => EngineStep::Defer(other),
    }
}

/// An operation that a worker declines comes back whole, and it declines exactly those that the pool
/// does not take.
pub proof fn law_a_declined_operation_comes_back_whole(op: ClientOp, default_limit: usize)
    ensures
        engine_step(op, default_limit) is Defer <==> !router::pool_takes(op),
        engine_step(op, default_limit) matches EngineStep::Defer(kept) ==> kept == op,
{
}

} // verus!
