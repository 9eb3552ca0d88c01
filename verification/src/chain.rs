//! The boot chain: sclang, then the wiring, then the pinning of threads, then Tidal;
//! and the vocals' server beside it.
//!
//! A node is off until its step starts, running while the step is in flight, and ready
//! once there is evidence: a line that sclang or Tidal prints, the step's own success
//! for the wiring and the pinning, a running process for the vocals.

use vstd::prelude::*;

verus! {

#[derive(Clone, Copy, Debug, PartialEq, Eq, Structural)]
pub enum NodeId {
    Sclang,
    Connect,
    Pin,
    Tidal,
    Vocals,
}

#[derive(Clone, Copy, Debug, PartialEq, Eq, Structural)]
pub enum NodeState {
    Off,
    Running,
    Ready,
}

/// The state of every node.
#[derive(Clone, Copy, Debug, PartialEq, Eq, Structural)]
pub struct Chain {
    pub sclang: NodeState,
    pub connect: NodeState,
    pub pin: NodeState,
    pub tidal: NodeState,
    pub vocals: NodeState,
}

impl Chain {
    pub open spec fn state(self, node: NodeId) -> NodeState {
        match node {
            NodeId::Sclang => self.sclang,
            NodeId::Connect => self.connect,
            NodeId::Pin => self.pin,
            NodeId::Tidal => self.tidal,
            NodeId::Vocals => self.vocals,
        }
    }

    /// One node in another state.
    pub open spec fn with(self, node: NodeId, state: NodeState) -> Chain {
        match node {
            NodeId::Sclang => Chain { sclang: state, ..self },
            NodeId::Connect => Chain { connect: state, ..self },
            NodeId::Pin => Chain { pin: state, ..self },
            NodeId::Tidal => Chain { tidal: state, ..self },
            NodeId::Vocals => Chain { vocals: state, ..self },
        }
    }

    /// The whole chain off. The vocals are not part of it.
    pub open spec fn demoted(self) -> Chain {
        Chain {
            sclang: NodeState::Off,
            connect: NodeState::Off,
            pin: NodeState::Off,
            tidal: NodeState::Off,
            vocals: self.vocals,
        }
    }

    /// The process of a node was launched. The steps behind sclang do not survive a
    /// fresh sclang. The wiring and the pinning have no process.
    pub open spec fn spawned(self, node: Option<NodeId>) -> Chain {
        match node {
            Some(NodeId::Sclang) => self.demoted().with(NodeId::Sclang, NodeState::Running),
            Some(NodeId::Tidal) => self.with(NodeId::Tidal, NodeState::Running),
            Some(NodeId::Vocals) => self.with(NodeId::Vocals, NodeState::Running),
            _ => self,
        }
    }

    /// The process of a node exited. The chain does not survive sclang.
    pub open spec fn exited(self, node: Option<NodeId>) -> Chain {
        match node {
            Some(NodeId::Sclang) => self.demoted(),
            Some(NodeId::Tidal) => self.with(NodeId::Tidal, NodeState::Off),
            Some(NodeId::Vocals) => self.with(NodeId::Vocals, NodeState::Off),
            _ => self,
        }
    }

    /// A look at the processes that found the servers as `now`, when the look before
    /// found them as `prev`. An orbits' server that went away takes the chain with it;
    /// the vocals' node follows its server.
    pub open spec fn looked(self, prev: Liveness, now: Liveness) -> Chain {
        let c = if prev.orbits && !now.orbits {
            self.demoted()
        } else {
            self
        };
        if prev.vocals == now.vocals {
            c
        } else if now.vocals {
            c.with(NodeId::Vocals, NodeState::Ready)
        } else {
            c.with(NodeId::Vocals, NodeState::Off)
        }
    }

    /// Everything off.
    pub fn new() -> (r: Chain)
        ensures
            forall|node: NodeId| #[trigger] r.state(node) == NodeState::Off,
            r == (Chain {
                sclang: NodeState::Off,
                connect: NodeState::Off,
                pin: NodeState::Off,
                tidal: NodeState::Off,
                vocals: NodeState::Off,
            }),
    {
        Chain {
            sclang: NodeState::Off,
            connect: NodeState::Off,
            pin: NodeState::Off,
            tidal: NodeState::Off,
            vocals: NodeState::Off,
        }
    }

    pub fn node_state(&self, node: NodeId) -> (r: NodeState)
        ensures
            r == self.state(node),
    {
        match node {
            NodeId::Sclang => self.sclang,
            NodeId::Connect => self.connect,
            NodeId::Pin => self.pin,
            NodeId::Tidal => self.tidal,
            NodeId::Vocals => self.vocals,
        }
    }

    pub fn set_node_state(&mut self, node: NodeId, state: NodeState)
        ensures
            *final(self) == old(self).with(node, state),
    {
        match node {
            NodeId::Sclang => self.sclang = state,
            NodeId::Connect => self.connect = state,
            NodeId::Pin => self.pin = state,
            NodeId::Tidal => self.tidal = state,
            NodeId::Vocals => self.vocals = state,
        }
    }

    fn demote(&mut self)
        ensures
            *final(self) == old(self).demoted(),
    {
        self.sclang = NodeState::Off;
        self.connect = NodeState::Off;
        self.pin = NodeState::Off;
        self.tidal = NodeState::Off;
    }

    /// Notes that the process of a node was launched, and gives what is to be logged.
    pub fn mark_spawned(&mut self, node: Option<NodeId>) -> (log: Option<&'static str>)
        ensures
            *final(self) == old(self).spawned(node),
            node == Some(NodeId::Sclang) <==> log is Some,
            log matches Some(m) ==> m@
                == "[chain] fresh sclang: CONNECT and PIN must run again; restart Tidal"@,
    {
        match node {
            Some(NodeId::Sclang) => {
                self.demote();
                self.set_node_state(NodeId::Sclang, NodeState::Running);
                Some("[chain] fresh sclang: CONNECT and PIN must run again; restart Tidal")
            },
            Some(NodeId::Tidal) => {
                self.set_node_state(NodeId::Tidal, NodeState::Running);
                None
            },
            Some(NodeId::Vocals) => {
                self.set_node_state(NodeId::Vocals, NodeState::Running);
                None
            },
            _ => None,
        }
    }

    /// Notes that the process of a node exited, and gives what is to be logged.
    pub fn mark_exited(&mut self, node: Option<NodeId>) -> (log: Option<&'static str>)
        ensures
            *final(self) == old(self).exited(node),
            node == Some(NodeId::Sclang) <==> log is Some,
            log matches Some(m) ==> m@
                == "[chain] sclang gone: boot the chain again, tidal included"@,
    {
        match node {
            Some(NodeId::Sclang) => {
                self.demote();
                Some("[chain] sclang gone: boot the chain again, tidal included")
            },
            Some(NodeId::Tidal) => {
                self.set_node_state(NodeId::Tidal, NodeState::Off);
                None
            },
            Some(NodeId::Vocals) => {
                self.set_node_state(NodeId::Vocals, NodeState::Off);
                None
            },
            _ => None,
        }
    }

    /// Notes that every scsynth and sclang was told to end: a live Tidal would go on
    /// writing to the busses of a dead server.
    pub fn force_restart(&mut self) -> (log: &'static str)
        ensures
            *final(self) == old(self).with(NodeId::Tidal, NodeState::Off),
            *final(self) == (Chain { tidal: NodeState::Off, ..*old(self) }),
            log@ == "[chain] restart Tidal after the stack comes back"@,
    {
        self.set_node_state(NodeId::Tidal, NodeState::Off);
        "[chain] restart Tidal after the stack comes back"
    }
}

/// Which servers a look at the processes found running.
#[derive(Clone, Copy, Debug, PartialEq, Eq, Structural)]
pub struct Liveness {
    pub orbits: bool,
    pub vocals: bool,
}

impl Liveness {
    /// Before the first look.
    pub fn new() -> (r: Liveness)
        ensures
            r == (Liveness { orbits: false, vocals: false }),
    {
        Liveness { orbits: false, vocals: false }
    }

    /// Takes a look, and moves the nodes that follow the processes.
    pub fn look(&mut self, chain: &mut Chain, orbits_running: bool, vocals_running: bool)
        ensures
            *final(self) == (Liveness { orbits: orbits_running, vocals: vocals_running }),
            *final(chain) == old(chain).looked(*old(self), *final(self)),
    {
        if orbits_running != self.orbits {
            if !orbits_running {
                chain.demote();
            }
            self.orbits = orbits_running;
        }
        if vocals_running != self.vocals {
            chain.set_node_state(
                NodeId::Vocals,
                if vocals_running {
                    NodeState::Ready
                } else {
                    NodeState::Off
                },
            );
            self.vocals = vocals_running;
        }
    }
}

// ---- laws -------------------------------------------------------------------------

/// What can happen to the chain.
pub enum ChainEvent {
    /// A process was launched for the node, if for any.
    Spawned(Option<NodeId>),
    /// A process of the node, if of any, exited.
    Exited(Option<NodeId>),
    /// A node was moved to a state by its step or by its readiness line.
    Moved(NodeId, NodeState),
    /// The processes were looked at, after a look before.
    Looked(Liveness, Liveness),
}

/// The chain after an event.
pub open spec fn after(c: Chain, e: ChainEvent) -> Chain {
    match e {
        ChainEvent::Spawned(node) => c.spawned(node),
        ChainEvent::Exited(node) => c.exited(node),
        ChainEvent::Moved(node, state) => c.with(node, state),
        ChainEvent::Looked(prev, now) => c.looked(prev, now),
    }
}

/// The chain after events, in their order.
pub open spec fn after_all(c: Chain, es: Seq<ChainEvent>) -> Chain
    decreases es.len(),
{
    if es.len() == 0 {
        c
    } else {
        after(after_all(c, es.drop_last()), es.last())
    }
}

/// The event is evidence that the node is ready.
pub open spec fn is_evidence(e: ChainEvent, node: NodeId) -> bool {
    match e {
        ChainEvent::Moved(n, state) => n == node && state == NodeState::Ready,
        ChainEvent::Looked(prev, now) => node == NodeId::Vocals && !prev.vocals && now.vocals,
        _ => false,
    }
}

/// No node becomes ready without evidence for that node.
pub proof fn law_ready_needs_evidence(c: Chain, es: Seq<ChainEvent>, node: NodeId)
    requires
        c.state(node) != NodeState::Ready,
        forall|i: int| 0 <= i < es.len() ==> !is_evidence(#[trigger] es[i], node),
    ensures
        after_all(c, es).state(node) != NodeState::Ready,
    decreases es.len(),
{
    if es.len() > 0 {
        law_ready_needs_evidence(c, es.drop_last(), node);
        assert(!is_evidence(es[es.len() - 1], node));
    }
}

/// The event restarts the orbits' server or is its end.
pub open spec fn ends_server(e: ChainEvent) -> bool {
    match e {
        ChainEvent::Spawned(node) => node == Some(NodeId::Sclang),
        ChainEvent::Exited(node) => node == Some(NodeId::Sclang),
        ChainEvent::Moved(..) => false,
        ChainEvent::Looked(prev, now) => prev.orbits && !now.orbits,
    }
}

/// Whatever restarts or ends the orbits' server puts Tidal, the wiring and the pinning
/// back: none of them is ready again before there is new evidence for it.
pub proof fn law_restart_needs_new_evidence(
    c: Chain,
    restart: ChainEvent,
    es: Seq<ChainEvent>,
    node: NodeId,
)
    requires
        ends_server(restart),
        node == NodeId::Connect || node == NodeId::Pin || node == NodeId::Tidal,
        forall|i: int| 0 <= i < es.len() ==> !is_evidence(#[trigger] es[i], node),
    ensures
        after(c, restart).state(node) == NodeState::Off,
        after_all(after(c, restart), es).state(node) != NodeState::Ready,
{
    law_ready_needs_evidence(after(c, restart), es, node);
}

/// The event concerns the vocals.
pub open spec fn concerns_vocals(e: ChainEvent) -> bool {
    match e {
        ChainEvent::Spawned(node) => node == Some(NodeId::Vocals),
        ChainEvent::Exited(node) => node == Some(NodeId::Vocals),
        ChainEvent::Moved(node, _) => node == NodeId::Vocals,
        ChainEvent::Looked(prev, now) => prev.vocals != now.vocals,
    }
}

/// The vocals stand apart: what happens to the chain does not move them.
pub proof fn law_vocals_stand_apart(c: Chain, e: ChainEvent)
    requires
        !concerns_vocals(e),
    ensures
        after(c, e).vocals == c.vocals,
{
}

/// And what happens to the vocals alone does not move the chain.
pub proof fn law_chain_stands_apart(c: Chain, e: ChainEvent, node: NodeId)
    requires
        concerns_vocals(e),
        e matches ChainEvent::Looked(prev, now) ==> !prev.orbits || now.orbits,
        node != NodeId::Vocals,
    ensures
        after(c, e).state(node) == c.state(node),
{
}

/// Moving a node moves that node and no other, and each node is read where it was moved.
pub proof fn law_one_node_moves(c: Chain, node: NodeId, state: NodeState, other: NodeId)
    ensures
        c.with(node, state).state(node) == state,
        other != node ==> c.with(node, state).state(other) == c.state(other),
        c.state(NodeId::Sclang) == c.sclang,
        c.state(NodeId::Connect) == c.connect,
        c.state(NodeId::Pin) == c.pin,
        c.state(NodeId::Tidal) == c.tidal,
        c.state(NodeId::Vocals) == c.vocals,
{
}

/// A launched process runs: its node is running. With sclang every step behind it is off.
/// Nothing else moves, and a process without a node moves nothing.
pub proof fn law_launch_moves(c: Chain)
    ensures
        c.spawned(Some(NodeId::Sclang)) == (Chain {
            sclang: NodeState::Running,
            connect: NodeState::Off,
            pin: NodeState::Off,
            tidal: NodeState::Off,
            vocals: c.vocals,
        }),
        c.spawned(Some(NodeId::Tidal)) == (Chain { tidal: NodeState::Running, ..c }),
        c.spawned(Some(NodeId::Vocals)) == (Chain { vocals: NodeState::Running, ..c }),
        c.spawned(Some(NodeId::Connect)) == c,
        c.spawned(Some(NodeId::Pin)) == c,
        c.spawned(None) == c,
{
}

/// A process that exited leaves its node off, and sclang every step behind it. Nothing else
/// moves, and a process without a node moves nothing.
pub proof fn law_exit_moves(c: Chain)
    ensures
        c.exited(Some(NodeId::Sclang)) == (Chain {
            sclang: NodeState::Off,
            connect: NodeState::Off,
            pin: NodeState::Off,
            tidal: NodeState::Off,
            vocals: c.vocals,
        }),
        c.exited(Some(NodeId::Tidal)) == (Chain { tidal: NodeState::Off, ..c }),
        c.exited(Some(NodeId::Vocals)) == (Chain { vocals: NodeState::Off, ..c }),
        c.exited(Some(NodeId::Connect)) == c,
        c.exited(Some(NodeId::Pin)) == c,
        c.exited(None) == c,
{
}

/// An orbits' server that went away since the look before leaves the chain off, and any
/// other look leaves the chain as it was. The vocals' node follows a server that came or
/// went, and stays as it was where neither happened.
pub proof fn law_look_moves(c: Chain, prev: Liveness, now: Liveness)
    ensures
        prev.orbits && !now.orbits ==> c.looked(prev, now).sclang == NodeState::Off && c.looked(
            prev,
            now,
        ).connect == NodeState::Off && c.looked(prev, now).pin == NodeState::Off && c.looked(
            prev,
            now,
        ).tidal == NodeState::Off,
        !prev.orbits || now.orbits ==> c.looked(prev, now).sclang == c.sclang && c.looked(
            prev,
            now,
        ).connect == c.connect && c.looked(prev, now).pin == c.pin && c.looked(prev, now).tidal
            == c.tidal,
        !prev.vocals && now.vocals ==> c.looked(prev, now).vocals == NodeState::Ready,
        prev.vocals && !now.vocals ==> c.looked(prev, now).vocals == NodeState::Off,
        prev.vocals == now.vocals ==> c.looked(prev, now).vocals == c.vocals,
{
}

} // verus!
