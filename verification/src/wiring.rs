//! Wiring the orbits' outputs to the sound card.

use vstd::prelude::*;

use crate::chain::{Chain, NodeId, NodeState};
use crate::number::{decimal, push_decimal};

verus! {

/// How `jack_connect` ended.
pub enum Outcome {
    Success,
    /// It ran and failed, with a status.
    Exited(String),
    /// It could not be run, for a reason.
    Failed(String),
}

/// How many of the connections stand.
#[derive(Clone, Copy, Debug, PartialEq, Eq, Structural)]
pub struct ConnectRun {
    pub ok: usize,
    pub total: usize,
}

/// What is logged before a connection is made.
pub fn connect_log(src: &str, dst: &str) -> (r: String)
    ensures
        r@ == "$ jack_connect "@ + src@ + " \""@ + dst@ + "\""@,
{
    let mut out = "$ jack_connect ".to_owned();
    out.append(src);
    out.append(" \"");
    out.append(dst);
    out.append("\"");
    out
}

/// What is logged of a connection that failed.
pub open spec fn failure_text(src: Seq<char>, dst: Seq<char>, outcome: Outcome) -> Seq<char> {
    let head = "[orbits] jack_connect "@ + src + " -> "@ + dst;
    match outcome {
        Outcome::Success => head,
        Outcome::Exited(status) => head + " exited with "@ + status@,
        Outcome::Failed(error) => head + " failed: "@ + error@,
    }
}

/// What is logged of a run, and the state that it leaves the node in.
pub open spec fn verdict_text(run: ConnectRun) -> Seq<char> {
    let head = if run.ok == run.total {
        "[orbits] connect complete ("@
    } else {
        "[orbits] connect incomplete ("@
    };
    head + decimal(run.ok as nat) + "/"@ + decimal(run.total as nat) + ")"@
}

impl ConnectRun {
    pub open spec fn after(self, success: bool) -> ConnectRun {
        if success {
            ConnectRun { ok: (self.ok + 1) as usize, ..self }
        } else {
            self
        }
    }

    /// The run after connections, each given by whether it stands.
    pub open spec fn after_all(self, outcomes: Seq<bool>) -> ConnectRun
        decreases outcomes.len(),
    {
        if outcomes.len() == 0 {
            self
        } else {
            self.after_all(outcomes.drop_last()).after(outcomes.last())
        }
    }

    /// Starts a run of that many connections.
    pub fn start(chain: &mut Chain, total: usize) -> (r: ConnectRun)
        ensures
            *final(chain) == old(chain).with(NodeId::Connect, NodeState::Running),
            r == (ConnectRun { ok: 0, total }),
    {
        chain.set_node_state(NodeId::Connect, NodeState::Running);
        ConnectRun { ok: 0, total }
    }

    /// A connection was made, or failed.
    pub fn connected(&mut self, src: &str, dst: &str, outcome: &Outcome) -> (log: Option<String>)
        requires
            outcome is Success ==> old(self).ok < usize::MAX,
        ensures
            *final(self) == old(self).after(outcome is Success),
            match log {
                Some(m) => !(outcome is Success) && m@ == failure_text(src@, dst@, *outcome),
                None => outcome is Success,
            },
            final(self).total == old(self).total,
            final(self).ok == old(self).ok + if outcome is Success {
                1int
            } else {
                0
            },
            match outcome {
                Outcome::Success => true,
                Outcome::Exited(status) => log is Some && (log->0)@ == "[orbits] jack_connect "@
                    + src@ + " -> "@ + dst@ + " exited with "@ + status@,
                Outcome::Failed(error) => log is Some && (log->0)@ == "[orbits] jack_connect "@
                    + src@ + " -> "@ + dst@ + " failed: "@ + error@,
            },
    {
        let mut out = "[orbits] jack_connect ".to_owned();
        out.append(src);
        out.append(" -> ");
        out.append(dst);
        match outcome {
            Outcome::Success => {
                self.ok = self.ok + 1;
                None
            },
            Outcome::Exited(status) => {
                out.append(" exited with ");
                out.append(status.as_str());
                Some(out)
            },
            Outcome::Failed(error) => {
                out.append(" failed: ");
                out.append(error.as_str());
                Some(out)
            },
        }
    }

    /// Every connection was tried. The node is ready where all of them stand.
    pub fn finish(&self, chain: &mut Chain) -> (log: String)
        ensures
            *final(chain) == old(chain).with(
                NodeId::Connect,
                if self.ok == self.total {
                    NodeState::Ready
                } else {
                    NodeState::Off
                },
            ),
            log@ == verdict_text(*self),
            self.ok == self.total ==> log@ == "[orbits] connect complete ("@ + decimal(
                self.ok as nat,
            ) + "/"@ + decimal(self.total as nat) + ")"@,
            self.ok != self.total ==> log@ == "[orbits] connect incomplete ("@ + decimal(
                self.ok as nat,
            ) + "/"@ + decimal(self.total as nat) + ")"@,
            final(chain).connect == if self.ok == self.total {
                NodeState::Ready
            } else {
                NodeState::Off
            },
    {
        let mut out = if self.ok == self.total {
            chain.set_node_state(NodeId::Connect, NodeState::Ready);
            "[orbits] connect complete (".to_owned()
        } else {
            chain.set_node_state(NodeId::Connect, NodeState::Off);
            "[orbits] connect incomplete (".to_owned()
        };
        push_decimal(&mut out, self.ok as u64);
        out.append("/");
        push_decimal(&mut out, self.total as u64);
        out.append(")");
        out
    }
}

// ---- laws -------------------------------------------------------------------------

/// A run in which every connection was tried is complete where and only where every one
/// of them stands.
pub proof fn law_complete_where_all_stand(outcomes: Seq<bool>)
    requires
        outcomes.len() <= usize::MAX,
    ensures
        ({
            let run = (ConnectRun { ok: 0, total: outcomes.len() as usize }).after_all(outcomes);
            run.ok == run.total <==> forall|i: int|
                0 <= i < outcomes.len() ==> #[trigger] outcomes[i]
        }),
{
    lemma_run_counts(outcomes.len() as usize, outcomes);
}

proof fn lemma_run_counts(total: usize, outcomes: Seq<bool>)
    requires
        outcomes.len() <= total,
    ensures
        ({
            let run = (ConnectRun { ok: 0, total }).after_all(outcomes);
            &&& run.total == total
            &&& run.ok <= outcomes.len()
            &&& run.ok == outcomes.len() <==> forall|i: int|
                0 <= i < outcomes.len() ==> #[trigger] outcomes[i]
        }),
    decreases outcomes.len(),
{
    if outcomes.len() > 0 {
        let head = outcomes.drop_last();
        lemma_run_counts(total, head);
        let all_head = forall|i: int| 0 <= i < head.len() ==> #[trigger] head[i];
        let all = forall|i: int| 0 <= i < outcomes.len() ==> #[trigger] outcomes[i];
        if all_head && outcomes.last() {
            assert forall|i: int| 0 <= i < outcomes.len() implies #[trigger] outcomes[i] by {
                if i < head.len() {
                    assert(head[i]);
                }
            }
        }
        if all {
            assert forall|i: int| 0 <= i < head.len() implies #[trigger] head[i] by {
                assert(outcomes[i]);
            }
            assert(outcomes[outcomes.len() - 1]);
        }
    }
}

/// A run counts the connections that stand, each once, and nothing else.
pub proof fn law_run_counts_what_stands(run: ConnectRun, outcomes: Seq<bool>, stands: bool)
    requires
        run.after_all(outcomes).ok < usize::MAX,
    ensures
        run.after_all(outcomes.push(stands)).ok == run.after_all(outcomes).ok + if stands {
            1int
        } else {
            0
        },
        run.after_all(outcomes.push(stands)).total == run.after_all(outcomes).total,
        run.after_all(Seq::empty()) == run,
{
    assert(outcomes.push(stands).drop_last() == outcomes);
}

} // verus!
