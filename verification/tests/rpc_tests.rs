use std::cell::Cell;

use agent_hub::registry::{AgentState, Event, Registry};
use agent_hub::rpc::{CodeChainRPC, CorrelationTable, RpcError, RpcResponse, RpcValue, SendAgentRPC};
use agent_hub::types::NodeStatus;

/// What the stub answers each call with.
enum Reply {
    Text(&'static str),
    Null,
    Peers(Vec<&'static str>),
    BestBlock(u64, &'static str),
    RemoteFailure(&'static str),
    Broken,
    WrongShape,
}

/// A connection spy: counts sends and answers from a script.
struct StubConn {
    calls: Cell<u32>,
    reply: Reply,
}

impl StubConn {
    fn new(reply: Reply) -> StubConn {
        StubConn { calls: Cell::new(0), reply }
    }
}

impl SendAgentRPC for &StubConn {
    fn codechain_call_rpc(&self, _method: &str) -> Result<RpcResponse, String> {
        self.calls.set(self.calls.get() + 1);
        match &self.reply {
            Reply::Text(t) => Ok(RpcResponse::Success(RpcValue::Text(t.to_string()))),
            Reply::Null => Ok(RpcResponse::Success(RpcValue::Null)),
            Reply::Peers(ps) => Ok(RpcResponse::Success(RpcValue::TextList(
                ps.iter().map(|p| p.to_string()).collect(),
            ))),
            Reply::BestBlock(n, h) => Ok(RpcResponse::Success(RpcValue::BestBlock {
                number: *n,
                hash: h.to_string(),
            })),
            Reply::RemoteFailure(e) => Ok(RpcResponse::Failure(e.to_string())),
            Reply::Broken => Err("connection closed".to_string()),
            Reply::WrongShape => Ok(RpcResponse::Success(RpcValue::Other)),
        }
    }
}

#[test]
fn stopped_node_short_circuits_with_zero_values_and_no_send() {
    let conn = StubConn::new(Reply::Text("1.0.0"));
    let rpc = CodeChainRPC::new(&conn);
    let v = rpc.version(NodeStatus::Stop);
    assert_eq!(v, Ok(None));
    let c = rpc.commit_hash(NodeStatus::Error);
    assert_eq!(c, Ok(None));
    let b = rpc.get_best_block_id(NodeStatus::Stop);
    assert!(matches!(b, Ok(None)));
    let p = rpc.get_peers(NodeStatus::Stop);
    assert_eq!(p, Ok(vec![]));
    // the spy saw no traffic at all
    assert_eq!(conn.calls.get(), 0);
}

#[test]
fn spy_sees_zero_sends_off_run_and_one_send_on_run() {
    let conn = StubConn::new(Reply::Text("1.0.0"));
    let rpc = CodeChainRPC::new(&conn);
    let _ = rpc.version(NodeStatus::Stop);
    assert_eq!(conn.calls.get(), 0);
    let v = rpc.version(NodeStatus::Run);
    assert_eq!(v, Ok(Some("1.0.0".to_string())));
    assert_eq!(conn.calls.get(), 1);
}

#[test]
fn version_decodes_text_and_null() {
    let conn_rpc = StubConn::new(Reply::Text("2.1.0"));
    let rpc = CodeChainRPC::new(&conn_rpc);
    assert_eq!(rpc.version(NodeStatus::Run), Ok(Some("2.1.0".to_string())));
    let conn_rpc = StubConn::new(Reply::Null);
    let rpc = CodeChainRPC::new(&conn_rpc);
    assert_eq!(rpc.version(NodeStatus::Run), Ok(None));
}

#[test]
fn get_peers_decodes_list() {
    let conn_rpc = StubConn::new(Reply::Peers(vec!["1.2.3.4:3485", "5.6.7.8:3485"]));
    let rpc = CodeChainRPC::new(&conn_rpc);
    let peers = rpc.get_peers(NodeStatus::Run).unwrap();
    assert_eq!(peers, vec!["1.2.3.4:3485".to_string(), "5.6.7.8:3485".to_string()]);
}

#[test]
fn get_best_block_id_maps_envelope() {
    let conn_rpc = StubConn::new(Reply::BestBlock(42, "deadbeef"));
    let rpc = CodeChainRPC::new(&conn_rpc);
    let block = rpc.get_best_block_id(NodeStatus::Run).unwrap().unwrap();
    assert_eq!(block.block_number, 42);
    assert_eq!(block.hash, "deadbeef");
}

#[test]
fn remote_failure_surfaces_as_remote_error() {
    let conn_rpc = StubConn::new(Reply::RemoteFailure("no such method"));
    let rpc = CodeChainRPC::new(&conn_rpc);
    let r = rpc.version(NodeStatus::Run);
    assert!(matches!(r, Err(RpcError::Remote(ref e)) if e == "no such method"));
}

#[test]
fn broken_connection_surfaces_as_transport_error() {
    let conn_rpc = StubConn::new(Reply::Broken);
    let rpc = CodeChainRPC::new(&conn_rpc);
    let r = rpc.version(NodeStatus::Run);
    assert!(matches!(r, Err(RpcError::Transport(ref e)) if e == "connection closed"));
}

#[test]
fn wrong_shape_surfaces_as_decode_error() {
    let conn_rpc = StubConn::new(Reply::WrongShape);
    let rpc = CodeChainRPC::new(&conn_rpc);
    assert!(matches!(rpc.version(NodeStatus::Run), Err(RpcError::Decode)));
    let conn_rpc = StubConn::new(Reply::Null);
    let rpc = CodeChainRPC::new(&conn_rpc);
    assert!(matches!(rpc.get_peers(NodeStatus::Run), Err(RpcError::Decode)));
}

#[test]
fn correlation_ids_are_unique_and_route_once() {
    let mut table = CorrelationTable::new();
    let a = table.allocate();
    let b = table.allocate();
    let c = table.allocate();
    assert_ne!(a, b);
    assert_ne!(b, c);
    assert_ne!(a, c);
    // a response routes to exactly the caller that used the id
    assert!(table.resolve(b));
    assert!(!table.resolve(b));
    assert!(table.resolve(a));
    assert!(table.resolve(c));
    assert!(!table.resolve(c));
}

#[test]
fn fresh_ids_never_collide_with_in_flight_ones() {
    let mut table = CorrelationTable::new();
    let a = table.allocate();
    let b = table.allocate();
    assert!(table.resolve(a));
    let c = table.allocate();
    assert_ne!(c, b);
}

#[test]
fn registry_keeps_one_agent_per_name() {
    let mut registry = Registry::new();
    assert!(registry.register("node-a".to_string(), NodeStatus::Stop));
    assert!(registry.register("node-b".to_string(), NodeStatus::Run));
    // a reconnect of a known name creates nothing
    assert!(!registry.register("node-a".to_string(), NodeStatus::Run));
    let agent = registry.get_agent(&"node-a".to_string()).unwrap();
    assert_eq!(agent.name().as_str(), "node-a");
    assert_eq!(agent.status(), NodeStatus::Stop);
    assert!(registry.get_agent(&"node-c".to_string()).is_none());
}

#[test]
fn status_change_raises_one_event() {
    let mut agent = AgentState::new("node-a".to_string(), NodeStatus::Stop);
    let again = agent.set_status(NodeStatus::Stop);
    assert!(again.is_none());
    let event = agent.set_status(NodeStatus::Run);
    match event {
        Some(Event::StatusChanged { name, from, to }) => {
            assert_eq!(name, "node-a");
            assert_eq!(from, NodeStatus::Stop);
            assert_eq!(to, NodeStatus::Run);
        },
        _ => panic!("expected a status-change event"),
    }
    assert_eq!(agent.status(), NodeStatus::Run);
}

#[test]
fn stopped_then_running_node_scenario() {
    // register "node-a" with status Stop, call version: the zero value, no
    // error; transition to Run with a stub answering "1.0.0": Some("1.0.0")
    let mut registry = Registry::new();
    registry.register("node-a".to_string(), NodeStatus::Stop);
    let status = registry.get_agent(&"node-a".to_string()).unwrap().status();
    let conn_rpc = StubConn::new(Reply::Text("1.0.0"));
    let rpc = CodeChainRPC::new(&conn_rpc);
    assert_eq!(rpc.version(status), Ok(None));

    let mut agent = AgentState::new("node-a".to_string(), NodeStatus::Stop);
    let event = agent.set_status(NodeStatus::Run);
    assert!(event.is_some());
    assert_eq!(rpc.version(agent.status()), Ok(Some("1.0.0".to_string())));
}

#[test]
fn shell_log_is_empty_off_run_and_text_on_run() {
    let conn = StubConn::new(Reply::Text("line one\nline two\n"));
    let rpc = CodeChainRPC::new(&conn);
    assert_eq!(rpc.shell_get_codechain_log(NodeStatus::Stop), Ok(String::new()));
    assert_eq!(conn.calls.get(), 0);
    assert_eq!(
        rpc.shell_get_codechain_log(NodeStatus::Run),
        Ok("line one\nline two\n".to_string())
    );
    let conn = StubConn::new(Reply::WrongShape);
    let rpc = CodeChainRPC::new(&conn);
    assert!(matches!(rpc.shell_get_codechain_log(NodeStatus::Run), Err(RpcError::Decode)));
}

#[test]
fn fan_out_collects_each_name_independently() {
    let mut registry = Registry::new();
    registry.register("node-a".to_string(), NodeStatus::Run);
    registry.register("node-b".to_string(), NodeStatus::Run);
    let names = registry.names();
    assert_eq!(names, vec!["node-a".to_string(), "node-b".to_string()]);

    // one broken connection must not abort the others' results
    let good = StubConn::new(Reply::Text("1.0.0"));
    let bad = StubConn::new(Reply::Broken);
    let mut results = Vec::new();
    for name in names {
        let conn = if name == "node-a" { &good } else { &bad };
        let rpc = CodeChainRPC::new(conn);
        results.push((name, rpc.version(NodeStatus::Run)));
    }
    assert_eq!(results[0].1, Ok(Some("1.0.0".to_string())));
    assert!(results[1].1.is_err());
}
