//! Core data types of the agent hub: node lifecycle status, chain positions,
//! structured log lines as nodes emit them, and persisted log records.

use vstd::prelude::*;

verus! {

/// Name of a monitored node; unique key in the agent registry.
pub type NodeName = String;

/// Lifecycle state of a monitored node as seen by the registry.
///
/// RPC calls are forwarded to the node only while the status is `Run`;
/// in every other state a call short-circuits to the zero value of its
/// result type, so that a transient disconnect renders as "offline"
/// rather than as an error.
#[derive(Clone, Copy, PartialEq, Eq, Structural, Debug)]
pub enum NodeStatus {
    Run,
    Stop,
    Error,
}

/// A chain position: block number plus the block's hash rendered as hex text.
pub struct BlockId {
    pub block_number: u64,
    pub hash: String,
}

/// One log line as a node emits it, before ingestion. The timestamp is the
/// raw RFC3339 text (with nanoseconds and a zone offset) and is parsed only
/// when the record is persisted.
pub struct StructuredLog {
    pub level: String,
    pub target: String,
    pub message: String,
    pub timestamp: String,
}

/// A persisted log record. The id is assigned by the store on insert and
/// the timestamp is kept as nanoseconds since the Unix epoch; records are
/// immutable once written.
pub struct Log {
    pub id: u64,
    pub node_name: String,
    pub level: String,
    pub target: String,
    pub timestamp: i64,
    pub message: String,
}

/// Ghost image of a persisted record: text fields as character sequences.
#[verifier::ext_equal]
pub ghost struct LogView {
    pub id: u64,
    pub node_name: Seq<char>,
    pub level: Seq<char>,
    pub target: Seq<char>,
    pub timestamp: i64,
    pub message: Seq<char>,
}

impl View for Log {
    type V = LogView;

    open spec fn view(&self) -> LogView {
        LogView {
            id: self.id,
            node_name: self.node_name@,
            level: self.level@,
            target: self.target@,
            timestamp: self.timestamp,
            message: self.message@,
        }
    }
}

impl Clone for Log {
    fn clone(&self) -> (r: Self)
        ensures
            r@ == self@,
    {
        Log {
            id: self.id,
            node_name: self.node_name.clone(),
            level: self.level.clone(),
            target: self.target.clone(),
            timestamp: self.timestamp,
            message: self.message.clone(),
        }
    }
}

/// Direction of the `ORDER BY (timestamp, id)` ordering of a search.
#[derive(Clone, Copy, PartialEq, Eq, Structural, Debug)]
pub enum OrderBy {
    ASC,
    DESC,
}

/// Restriction of a search to given node names, levels and targets.
/// An empty list means "no restriction on this column", never "match nothing".
pub struct LogFilter {
    pub node_names: Vec<String>,
    pub levels: Vec<String>,
    pub targets: Vec<String>,
}

/// Open or half-open time window of a search; bounds are strict
/// (`timestamp > from_time`, `timestamp < to_time`).
pub struct TimeRange {
    pub from_time: Option<i64>,
    pub to_time: Option<i64>,
}

/// A search request: every part is optional, and a request with nothing set
/// means "all records, ordered and paginated". Pages are 1-based.
pub struct LogQueryParams {
    pub filter: Option<LogFilter>,
    pub search: Option<String>,
    pub time: Option<TimeRange>,
    pub order_by: Option<OrderBy>,
    pub page: Option<u32>,
    pub item_per_page: Option<u32>,
}

/// Rejection of a search request before any row is touched.
#[derive(Clone, Copy, PartialEq, Eq, Structural, Debug)]
pub enum QueryError {
    /// Pages are numbered from 1; page 0 would make the row offset negative.
    InvalidPage,
}

/// Failure of a log ingestion batch.
#[derive(Clone, Copy, PartialEq, Eq, Structural, Debug)]
pub enum StoreError {
    /// A record's timestamp does not parse under the RFC3339-with-nanoseconds
    /// format; the batch stops at that record.
    InvalidTimestamp,
}

} // verus!
