//! The per-node RPC relay: forwards JSON-RPC calls to a monitored node over
//! its connection, gated on the node's status. While the node is not running
//! a call short-circuits to the zero value of its result type, with no error
//! and no network traffic, so that dashboards render "offline" rather than
//! an error. Also the correlation table that pairs asynchronous responses
//! with their in-flight requests.

use vstd::prelude::*;
use crate::types::{NodeStatus, BlockId};

verus! {

/// The result part of a JSON-RPC response, modeled as the shapes the typed
/// calls read: null, a text, a list of texts (peer addresses), or a
/// best-block envelope of number and hash. Any other shape is `Other` and
/// fails decoding.
pub enum RpcValue {
    Null,
    Text(String),
    TextList(Vec<String>),
    BestBlock { number: u64, hash: String },
    Other,
}

/// A JSON-RPC response envelope: the node answered with a result, or
/// signalled failure with an error rendered as text.
pub enum RpcResponse {
    Success(RpcValue),
    Failure(String),
}

/// Failure of one forwarded RPC call.
#[derive(Debug, PartialEq, Eq)]
pub enum RpcError {
    /// The connection closed or broke while the call was in flight.
    Transport(String),
    /// The node answered with a failure envelope; carries its payload.
    Remote(String),
    /// The node's result does not have the shape the call expects.
    Decode,
}

/// The transport an agent forwards calls through: sends one JSON-RPC request
/// for the named method and hands back the matching response, or an error
/// when the connection is gone. Implemented over a node's live connection;
/// a test may implement it as a stub.
pub trait SendAgentRPC {
    fn codechain_call_rpc(&self, method: &str) -> Result<RpcResponse, String>;
}

/// Reads a result that is either absent (null) or a text.
pub fn decode_optional_text(v: RpcValue) -> (r: Result<Option<String>, RpcError>)
    ensures
        r == match v {
            RpcValue::Null => Ok::<Option<String>, RpcError>(None::<String>),
            RpcValue::Text(t) => Ok::<Option<String>, RpcError>(Some(t)),
            _ => Err::<Option<String>, RpcError>(RpcError::Decode),
        },
{
    match v {
        RpcValue::Null => Ok(None),
        RpcValue::Text(t) => Ok(Some(t)),
        _ => Err(RpcError::Decode),
    }
}

/// Reads a result that must be a text.
pub fn decode_text(v: RpcValue) -> (r: Result<String, RpcError>)
    ensures
        r == match v {
            RpcValue::Text(t) => Ok::<String, RpcError>(t),
            _ => Err::<String, RpcError>(RpcError::Decode),
        },
{
    match v {
        RpcValue::Text(t) => Ok(t),
        _ => Err(RpcError::Decode),
    }
}

/// Reads a result that must be a list of texts.
pub fn decode_text_list(v: RpcValue) -> (r: Result<Vec<String>, RpcError>)
    ensures
        r == match v {
            RpcValue::TextList(list) => Ok::<Vec<String>, RpcError>(list),
            _ => Err::<Vec<String>, RpcError>(RpcError::Decode),
        },
{
    match v {
        RpcValue::TextList(list) => Ok(list),
        _ => Err(RpcError::Decode),
    }
}

/// Reads a result that is either absent (null) or a best-block envelope,
/// mapped into a `BlockId`.
pub fn decode_best_block(v: RpcValue) -> (r: Result<Option<BlockId>, RpcError>)
    ensures
        r == match v {
            RpcValue::Null => Ok::<Option<BlockId>, RpcError>(None::<BlockId>),
            RpcValue::BestBlock { number, hash } => Ok::<Option<BlockId>, RpcError>(
                Some(BlockId { block_number: number, hash }),
            ),
            _ => Err::<Option<BlockId>, RpcError>(RpcError::Decode),
        },
{
    match v {
        RpcValue::Null => Ok(None),
        RpcValue::BestBlock { number, hash } => Ok(Some(BlockId { block_number: number, hash })),
        _ => Err(RpcError::Decode),
    }
}

/// The typed RPC surface of one monitored node, built over its connection.
pub struct CodeChainRPC<S: SendAgentRPC> {
    sender: S,
}

impl<S: SendAgentRPC> CodeChainRPC<S> {
    /// Wraps a connection handle.
    pub fn new(sender: S) -> Self {
        CodeChainRPC { sender }
    }

    /// Forwards one call whose result is an optional text.
    ///
    /// Off the `Run` status this is `Ok(None)` with no network traffic; on
    /// it, the connection's response is decoded: a success envelope through
    /// `decode_optional_text`, a failure envelope as `Remote`, a broken
    /// connection as `Transport`.
    fn call_optional_text(&self, status: NodeStatus, method: &str) -> (r: Result<
        Option<String>,
        RpcError,
    >)
        ensures
            status != NodeStatus::Run ==> r == Ok::<Option<String>, RpcError>(None::<String>),
    {
        if status != NodeStatus::Run {
            return Ok(None);
        }
        match self.sender.codechain_call_rpc(method) {
            Err(e) => Err(RpcError::Transport(e)),
            Ok(RpcResponse::Failure(e)) => Err(RpcError::Remote(e)),
            Ok(RpcResponse::Success(v)) => decode_optional_text(v),
        }
    }

    /// The node's established peers, each rendered as an address text.
    /// Off the `Run` status: the zero value, an empty list, with no error.
    pub fn get_peers(&self, status: NodeStatus) -> (r: Result<Vec<String>, RpcError>)
        ensures
            status != NodeStatus::Run ==> (r matches Ok(v) && v@ == Seq::<String>::empty()),
    {
        if status != NodeStatus::Run {
            let empty: Vec<String> = Vec::new();
            return Ok(empty);
        }
        match self.sender.codechain_call_rpc("net_getEstablishedPeers") {
            Err(e) => Err(RpcError::Transport(e)),
            Ok(RpcResponse::Failure(e)) => Err(RpcError::Remote(e)),
            Ok(RpcResponse::Success(v)) => decode_text_list(v),
        }
    }

    /// The node's best block, as an optional `BlockId`.
    /// Off the `Run` status: `Ok(None)` with no error.
    pub fn get_best_block_id(&self, status: NodeStatus) -> (r: Result<Option<BlockId>, RpcError>)
        ensures
            status != NodeStatus::Run ==> r == Ok::<Option<BlockId>, RpcError>(None::<BlockId>),
    {
        if status != NodeStatus::Run {
            return Ok(None);
        }
        match self.sender.codechain_call_rpc("chain_getBestBlockId") {
            Err(e) => Err(RpcError::Transport(e)),
            Ok(RpcResponse::Failure(e)) => Err(RpcError::Remote(e)),
            Ok(RpcResponse::Success(v)) => decode_best_block(v),
        }
    }

    /// The node's version text. Off the `Run` status: `Ok(None)`.
    pub fn version(&self, status: NodeStatus) -> (r: Result<Option<String>, RpcError>)
        ensures
            status != NodeStatus::Run ==> r == Ok::<Option<String>, RpcError>(None::<String>),
    {
        self.call_optional_text(status, "version")
    }

    /// The hash of the commit the node was built from. Off the `Run`
    /// status: `Ok(None)`.
    pub fn commit_hash(&self, status: NodeStatus) -> (r: Result<Option<String>, RpcError>)
        ensures
            status != NodeStatus::Run ==> r == Ok::<Option<String>, RpcError>(None::<String>),
    {
        self.call_optional_text(status, "commitHash")
    }

    /// The node's current log text, for the plain-text export path.
    /// Off the `Run` status: the zero value, an empty text, with no error.
    pub fn shell_get_codechain_log(&self, status: NodeStatus) -> (r: Result<String, RpcError>)
        ensures
            status != NodeStatus::Run ==> (r matches Ok(s) && s@ == Seq::<char>::empty()),
    {
        if status != NodeStatus::Run {
            return Ok(String::new());
        }
        match self.sender.codechain_call_rpc("shell_getCodeChainLog") {
            Err(e) => Err(RpcError::Transport(e)),
            Ok(RpcResponse::Failure(e)) => Err(RpcError::Remote(e)),
            Ok(RpcResponse::Success(v)) => decode_text(v),
        }
    }
}

/// The in-flight calls of one agent: every outstanding correlation id is
/// unique, and every id ever handed out is below `next`, so a fresh id can
/// never collide with an outstanding one.
pub struct CorrelationTable {
    next: u64,
    in_flight: Vec<u64>,
}

impl View for CorrelationTable {
    type V = Seq<u64>;

    closed spec fn view(&self) -> Seq<u64> {
        self.in_flight@
    }
}

impl CorrelationTable {
    /// The id the next call will get.
    pub closed spec fn next_spec(&self) -> u64 {
        self.next
    }

    /// Well-formedness: outstanding ids below `next` and pairwise distinct.
    pub open spec fn inv(&self) -> bool {
        &&& forall|i: int| 0 <= i < self@.len() ==> #[trigger] self@[i] < self.next_spec()
        &&& forall|i: int, j: int| 0 <= i < j < self@.len() ==> self@[i] != self@[j]
    }

    /// An empty table; ids start at 0.
    pub fn new() -> (r: CorrelationTable)
        ensures
            r.inv(),
            r@ =~= Seq::<u64>::empty(),
            r.next_spec() == 0,
    {
        CorrelationTable { next: 0, in_flight: Vec::new() }
    }

    /// Hands out a fresh correlation id and records it as in flight. The id
    /// differs from every id still outstanding.
    pub fn allocate(&mut self) -> (id: u64)
        requires
            old(self).inv(),
            old(self).next_spec() < u64::MAX,
        ensures
            final(self).inv(),
            id == old(self).next_spec(),
            !old(self)@.contains(id),
            final(self)@ == old(self)@.push(id),
            final(self).next_spec() == old(self).next_spec() + 1,
    {
        let id = self.next;
        self.next = self.next + 1;
        self.in_flight.push(id);
        proof {
            if old(self)@.contains(id) {
                let k = choose|k: int| 0 <= k < old(self)@.len() && old(self)@[k] == id;
                assert(old(self)@[k] < id);
            }
        }
        id
    }

    /// Routes a response: takes the id out of the in-flight set, reporting
    /// whether it was outstanding. Every other id stays in flight, so each
    /// response resolves at most the one call that used its id.
    #[verifier::loop_isolation(false)]
    pub fn resolve(&mut self, id: u64) -> (found: bool)
        requires
            old(self).inv(),
        ensures
            final(self).inv(),
            found <==> old(self)@.contains(id),
            found ==> final(self)@.len() == old(self)@.len() - 1,
            !found ==> final(self)@ == old(self)@,
            forall|x: u64|
                #[trigger] final(self)@.contains(x) <==> (old(self)@.contains(x) && x != id),
    {
        let ghost s0 = self@;
        let n = self.in_flight.len();
        let mut i: usize = 0;
        while i < n
            invariant
                i <= n,
                n == self.in_flight@.len(),
                self@ == s0,
                self.next_spec() == old(self).next_spec(),
                forall|j: int| 0 <= j < i ==> #[trigger] s0[j] != id,
            decreases n - i,
        {
            if self.in_flight[i] == id {
                self.in_flight.remove(i);
                proof {
                    assert(self@ == s0.remove(i as int));
                    s0.remove_ensures(i as int);
                    assert(s0[i as int] == id);
                    assert(s0.contains(id));
                    assert(self.next_spec() == old(self).next_spec());
                    assert forall|a: int| 0 <= a < self@.len() implies #[trigger] self@[a]
                        < self.next_spec() by {
                        if a < i {
                            assert(self@[a] == s0[a]);
                            assert(s0[a] < old(self).next_spec());
                        } else {
                            assert(self@[a] == s0[a + 1]);
                            assert(s0[a + 1] < old(self).next_spec());
                        }
                    }
                    assert forall|a: int, b: int| 0 <= a < b < self@.len() implies self@[a]
                        != self@[b] by {
                        if b < i {
                            assert(self@[a] == s0[a] && self@[b] == s0[b]);
                        } else if a < i {
                            assert(self@[a] == s0[a] && self@[b] == s0[b + 1]);
                        } else {
                            assert(self@[a] == s0[a + 1] && self@[b] == s0[b + 1]);
                        }
                    }
                    assert forall|x: u64| #[trigger] self@.contains(x) implies (s0.contains(x)
                        && x != id) by {
                        let k = choose|k: int| 0 <= k < self@.len() && self@[k] == x;
                        if k < i {
                            assert(s0[k] == x);
                            assert(s0[k] != id);
                        } else {
                            assert(s0[k + 1] == x);
                            assert(s0[k + 1] != s0[i as int]);
                        }
                    }
                    assert forall|x: u64| (s0.contains(x) && x != id) implies #[trigger] self@
                        .contains(x) by {
                        let k = choose|k: int| 0 <= k < s0.len() && s0[k] == x;
                        if k < i {
                            assert(self@[k] == x);
                        } else {
                            assert(k != i);
                            assert(self@[k - 1] == x);
                        }
                    }
                }
                return true;
            }
            i = i + 1;
        }
        proof {
            if s0.contains(id) {
                let k = choose|k: int| 0 <= k < s0.len() && s0[k] == id;
                assert(s0[k] != id);
            }
            assert forall|a: int| 0 <= a < self@.len() implies #[trigger] self@[a]
                < self.next_spec() by {
                assert(s0[a] < old(self).next_spec());
            }
        }
        false
    }
}

} // verus!
