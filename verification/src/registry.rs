//! The agent registry and the events it raises: one agent per node name,
//! created on first contact and kept — never duplicated — on reconnect, plus
//! the status record of each agent and the notifications that status changes
//! and fresh logs push towards dashboard subscribers.

use vstd::prelude::*;
use crate::types::NodeStatus;

verus! {

/// A notification of a state change or of new data, republished unchanged
/// to dashboard subscribers; delivery is best-effort, to whoever is
/// connected when it happens.
pub enum Event {
    /// A node's recorded status moved.
    StatusChanged { name: String, from: NodeStatus, to: NodeStatus },
    /// New log records arrived for a node.
    NewLogs { name: String, count: usize },
}

/// The registry's record of one node: the immutable name and the status
/// last recorded for it.
pub struct AgentState {
    name: String,
    status: NodeStatus,
}

/// Ghost image of an agent record.
#[verifier::ext_equal]
pub ghost struct AgentView {
    pub name: Seq<char>,
    pub status: NodeStatus,
}

impl View for AgentState {
    type V = AgentView;

    closed spec fn view(&self) -> AgentView {
        AgentView { name: self.name@, status: self.status }
    }
}

impl AgentState {
    /// A fresh record under the given name.
    pub fn new(name: String, status: NodeStatus) -> (r: AgentState)
        ensures
            r@.name == name@,
            r@.status == status,
    {
        AgentState { name, status }
    }

    /// The node's name.
    pub fn name(&self) -> (r: &String)
        ensures
            r@ == self@.name,
    {
        &self.name
    }

    /// The status last recorded.
    pub fn status(&self) -> (r: NodeStatus)
        ensures
            r == self@.status,
    {
        self.status
    }

    /// Records a new status. Exactly a change raises an event carrying the
    /// node's name and both statuses; the name never changes, and any status
    /// may follow any other.
    pub fn set_status(&mut self, status: NodeStatus) -> (r: Option<Event>)
        ensures
            final(self)@.status == status,
            final(self)@.name == old(self)@.name,
            r is Some <==> status != old(self)@.status,
            r matches Some(e) ==> (e matches Event::StatusChanged { name, from, to }
                && name@ == old(self)@.name && from == old(self)@.status && to == status),
    {
        let old_status = self.status;
        self.status = status;
        if status != old_status {
            Some(Event::StatusChanged { name: self.name.clone(), from: old_status, to: status })
        } else {
            None
        }
    }
}

/// Ghost images of a sequence of agent records.
pub open spec fn agent_views(s: Seq<AgentState>) -> Seq<AgentView> {
    s.map_values(|a: AgentState| a@)
}

/// Some agent of `s` carries the name `n`.
pub open spec fn has_agent(s: Seq<AgentView>, n: Seq<char>) -> bool {
    exists|k: int| 0 <= k < s.len() && (#[trigger] s[k]).name == n
}

/// The agent registry: owns the set of agents, at most one per node name.
pub struct Registry {
    agents: Vec<AgentState>,
}

impl View for Registry {
    type V = Seq<AgentView>;

    closed spec fn view(&self) -> Seq<AgentView> {
        agent_views(self.agents@)
    }
}

impl Registry {
    /// Well-formedness: no two agents share a name.
    pub open spec fn inv(&self) -> bool {
        forall|i: int, j: int|
            0 <= i < j < self@.len() ==> (#[trigger] self@[i]).name != (#[trigger] self@[j]).name
    }

    /// An empty registry.
    pub fn new() -> (r: Registry)
        ensures
            r.inv(),
            r@ =~= Seq::<AgentView>::empty(),
    {
        Registry { agents: Vec::new() }
    }

    /// Looks an agent up by name: the recorded agent exactly when one
    /// carries the name, nothing otherwise.
    pub fn get_agent(&self, name: &String) -> (r: Option<&AgentState>)
        ensures
            r is Some <==> has_agent(self@, name@),
            r matches Some(a) ==> a@.name == name@ && self@.contains(a@),
    {
        let n = self.agents.len();
        let mut i: usize = 0;
        while i < n
            invariant
                i <= n,
                n == self.agents@.len(),
                forall|j: int| 0 <= j < i ==> (#[trigger] self@[j]).name != name@,
            decreases n - i,
        {
            proof {
                assert(self@[i as int] == self.agents@[i as int]@);
            }
            if self.agents[i].name.eq(name) {
                proof {
                    assert(self@.contains(self@[i as int]));
                }
                return Some(&self.agents[i]);
            }
            i = i + 1;
        }
        proof {
            if has_agent(self@, name@) {
                let k = choose|k: int| 0 <= k < self@.len() && self@[k].name == name@;
                assert(self@[k].name != name@);
            }
        }
        None
    }

    /// The registered node names, in registration order: what a fan-out
    /// command walks, issuing its call per agent and collecting each name's
    /// result independently.
    pub fn names(&self) -> (r: Vec<String>)
        ensures
            r@.len() == self@.len(),
            forall|i: int| 0 <= i < r@.len() ==> (#[trigger] r@[i])@ == self@[i].name,
    {
        let n = self.agents.len();
        let mut r: Vec<String> = Vec::new();
        let mut i: usize = 0;
        while i < n
            invariant
                i <= n,
                n == self.agents@.len(),
                r@.len() == i,
                forall|j: int| 0 <= j < i ==> (#[trigger] r@[j])@ == self@[j].name,
            decreases n - i,
        {
            proof {
                assert(self@[i as int] == self.agents@[i as int]@);
            }
            let name = self.agents[i].name().clone();
            r.push(name);
            i = i + 1;
        }
        r
    }

    /// Registers a node on contact: a name seen for the first time gets a
    /// fresh agent with the given status; a known name keeps its existing
    /// agent untouched, so a reconnect never creates a duplicate. Reports
    /// whether an agent was created.
    #[verifier::loop_isolation(false)]
    pub fn register(&mut self, name: String, status: NodeStatus) -> (created: bool)
        requires
            old(self).inv(),
        ensures
            final(self).inv(),
            has_agent(final(self)@, name@),
            !created ==> final(self)@ == old(self)@ && has_agent(old(self)@, name@),
            created ==> !has_agent(old(self)@, name@) && final(self)@ == old(self)@.push(
                AgentView { name: name@, status },
            ),
    {
        let n = self.agents.len();
        let mut i: usize = 0;
        while i < n
            invariant
                i <= n,
                n == self.agents@.len(),
                self@ == old(self)@,
                forall|j: int| 0 <= j < i ==> (#[trigger] self@[j]).name != name@,
            decreases n - i,
        {
            proof {
                assert(self@[i as int] == self.agents@[i as int]@);
            }
            if self.agents[i].name.eq(&name) {
                proof {
                    assert(has_agent(self@, name@));
                }
                return false;
            }
            i = i + 1;
        }
        proof {
            if has_agent(self@, name@) {
                let k = choose|k: int| 0 <= k < self@.len() && self@[k].name == name@;
                assert(self@[k].name != name@);
            }
        }
        let agent = AgentState::new(name, status);
        self.agents.push(agent);
        proof {
            assert(self@ =~= old(self)@.push(agent@));
            assert(self@[self@.len() - 1].name == agent@.name);
            assert(has_agent(self@, agent@.name));
            assert forall|a: int, b: int|
                0 <= a < b < self@.len() implies (#[trigger] self@[a]).name
                != (#[trigger] self@[b]).name by {
                if b < self@.len() - 1 {
                    assert(self@[a] == old(self)@[a] && self@[b] == old(self)@[b]);
                } else {
                    assert(self@[a] == old(self)@[a]);
                    assert(!has_agent(old(self)@, agent@.name) ==> old(self)@[a].name
                        != agent@.name);
                }
            }
        }
        true
    }
}

} // verus!
