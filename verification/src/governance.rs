//! What a tool call leaves behind: the audit record.

use vstd::prelude::*;

verus! {

/// A tool call, as it is recorded.
#[derive(Debug, PartialEq, Eq)]
pub struct ToolCall {
    pub tool: String,
    pub index: Option<String>,
    pub query: Option<String>,
    /// Why the call was refused, where it was.
    pub error: Option<String>,
}

/// Who makes a call.
#[derive(Debug, PartialEq, Eq)]
pub struct Caller {
    pub key_id: Option<String>,
    pub label: Option<String>,
    pub role: Option<String>,
}

/// One line of the audit trail.
#[derive(Debug, PartialEq, Eq)]
pub struct ToolRecord {
    pub tool: String,
    pub caller: Caller,
    pub index: Option<String>,
    /// The query, only where the deployment keeps query texts.
    pub query: Option<String>,
    /// Why the call was refused. None where it succeeded.
    pub refused: Option<String>,
}

/// The record of a tool call, where a trail is kept: every tool is a read, so that each call is one
/// line.
pub fn record_tool_call(
    call: ToolCall,
    caller: Caller,
    audit_enabled: bool,
    records_query_text: bool,
) -> (record: Option<ToolRecord>)
    ensures
        record is Some <==> audit_enabled,
        record matches Some(line) ==> line == (ToolRecord {
            tool: call.tool,
            caller,
            index: call.index,
            query: if records_query_text {
                call.query
            } else {
                None
            },
            refused: call.error,
        }),
{
    if !audit_enabled {
        return None;
    }
    let query: Option<String> = if records_query_text {
        call.query
    } else {
        None
    };
    Some(ToolRecord { tool: call.tool, caller, index: call.index, query, refused: call.error })
}

} // verus!
