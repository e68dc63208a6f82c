//! Backend core of an operational dashboard for a fleet of blockchain
//! nodes: the typed RPC relay that forwards calls to a monitored node and
//! short-circuits while it is not running, the correlation of asynchronous
//! responses with their requests, the registry that keeps one agent per node
//! name, the log store with its filter/search/pagination semantics and SQL
//! rendering, and the events that state changes push towards subscribers.

use vstd::prelude::*;

pub mod types;
pub mod text;
pub mod query;
pub mod store;
pub mod rpc;
pub mod laws;
pub mod registry;
pub mod export;

verus! {

} // verus!
