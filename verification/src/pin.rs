//! Pinning the threads of the orbits' scsynth.
//!
//! scsynth renders everything on one thread. Its other threads wake in bursts, and on
//! the same CPU they would preempt it. So that thread gets an isolated CPU for itself,
//! and the others get the CPU's sibling.

use vstd::prelude::*;

use crate::chain::{Chain, NodeId, NodeState};
use crate::config::{owned, texts};
use crate::number::{decimal, push_decimal};
use crate::text::{chars_of, law_strip, same, strip_space, text_of, trim, CharClass};

verus! {

/// The CPU of the thread that renders.
pub const ORBITS_DSP_CPU: &'static str = "4";

/// The CPU of the other threads.
pub const ORBITS_AUX_CPU: &'static str = "10";

/// The name of the thread that renders.
pub const ORBITS_DSP_THREAD: &'static str = "data-loop.0";

/// The directory with the threads of a process.
pub open spec fn tasks_of(pid: nat) -> Seq<char> {
    "/proc/"@ + decimal(pid) + "/task"@
}

pub fn task_dir(pid: u32) -> (r: String)
    ensures
        r@ == tasks_of(pid as nat),
{
    let mut out = "/proc/".to_owned();
    push_decimal(&mut out, pid as u64);
    out.append("/task");
    out
}

/// A thread and where it goes.
pub struct PinTarget {
    pub comm: String,
    pub is_dsp: bool,
    pub cpu: &'static str,
}

/// `t` is the thread of that name, on the CPU that it belongs on.
pub open spec fn target_of(t: PinTarget, comm: Seq<char>) -> bool {
    &&& t.comm@ == trim(comm)
    &&& t.is_dsp == (trim(comm) == ORBITS_DSP_THREAD@)
    &&& t.cpu@ == if t.is_dsp {
        ORBITS_DSP_CPU@
    } else {
        ORBITS_AUX_CPU@
    }
}

/// Where a thread goes, by its name as the kernel gives it.
pub fn pin_target(comm: &str) -> (t: PinTarget)
    ensures
        target_of(t, comm@),
        t.is_dsp <==> trim(comm@) == "data-loop.0"@,
        t.is_dsp ==> t.cpu@ == "4"@,
        !t.is_dsp ==> t.cpu@ == "10"@,
{
    let chars = chars_of(comm);
    let name = strip_space(chars.as_slice());
    let is_dsp = same(name, chars_of(ORBITS_DSP_THREAD).as_slice());
    PinTarget {
        comm: text_of(name),
        is_dsp,
        cpu: if is_dsp {
            ORBITS_DSP_CPU
        } else {
            ORBITS_AUX_CPU
        },
    }
}

impl PinTarget {
    /// The arguments of `taskset` that send the thread there.
    pub fn taskset_args(&self, tid: &str) -> (r: Vec<String>)
        ensures
            texts(r@) == seq!["-cp"@, self.cpu@, tid@],
            r@.len() == 3,
            r@[0]@ == "-cp"@,
            r@[1]@ == self.cpu@,
            r@[2]@ == tid@,
    {
        let args = owned(&["-cp", self.cpu, tid]);
        assert(args@[0]@ == "-cp"@ && args@[1]@ == self.cpu@ && args@[2]@ == tid@);
        args
    }
}

/// How many threads of a process were pinned, and how many could not be.
#[derive(Clone, Copy, Debug, PartialEq, Eq, Structural)]
pub struct PinRun {
    pub pid: u32,
    pub dsp: u32,
    pub aux: u32,
    pub failed: u32,
}

/// What to log at the end of a run.
pub struct PinReport {
    pub warning: Option<String>,
    pub summary: String,
}

/// How a run starts.
pub enum PinStart {
    NoServer { log: &'static str },
    Run(PinRun),
}

/// A run that was asked for, before the server was looked up.
pub struct PinLookup {
    begun: (),
}

/// Starts to pin the threads of the orbits' scsynth. The node is running while the server
/// is looked up, whether or not one is found.
pub fn pin_orbits_threads(chain: &mut Chain) -> (r: PinLookup)
    ensures
        *final(chain) == old(chain).with(NodeId::Pin, NodeState::Running),
{
    chain.set_node_state(NodeId::Pin, NodeState::Running);
    PinLookup { begun: () }
}

impl PinLookup {
    /// The server was looked up. Without one the node goes off; with one it stays as it is.
    pub fn pin_start(self, chain: &mut Chain, pid: Option<u32>) -> (r: PinStart)
        ensures
            match r {
                PinStart::NoServer { log } => pid is None && *final(chain) == old(chain).with(
                    NodeId::Pin,
                    NodeState::Off,
                ) && log@ == "[pin] no orbits scsynth running"@,
                PinStart::Run(run) => pid == Some(run.pid) && *final(chain) == *old(chain) && run
                    == (PinRun { pid: run.pid, dsp: 0, aux: 0, failed: 0 }),
            },
    {
        match pid {
            None => {
                chain.set_node_state(NodeId::Pin, NodeState::Off);
                PinStart::NoServer { log: "[pin] no orbits scsynth running" }
            },
            Some(pid) => PinStart::Run(PinRun { pid, dsp: 0, aux: 0, failed: 0 }),
        }
    }
}

/// The summary of a run.
pub open spec fn summary_text(run: PinRun) -> Seq<char> {
    let head = "[pin] scsynth "@ + decimal(run.pid as nat) + ": "@ + decimal(run.dsp as nat)
        + " dsp on cpu "@ + ORBITS_DSP_CPU@ + ", "@ + decimal(run.aux as nat) + " aux on cpu "@
        + ORBITS_AUX_CPU@;
    if run.failed > 0 {
        head + ", "@ + decimal(run.failed as nat) + " failed"@
    } else {
        head
    }
}

impl PinRun {
    pub open spec fn threads(self) -> int {
        self.dsp + self.aux + self.failed
    }

    /// How many threads of one kind were gone through.
    pub open spec fn count(self, is_dsp: bool, ok: bool) -> u32 {
        if !ok {
            self.failed
        } else if is_dsp {
            self.dsp
        } else {
            self.aux
        }
    }

    /// The run after one more thread.
    pub open spec fn after(self, is_dsp: bool, ok: bool) -> PinRun {
        if !ok {
            PinRun { failed: (self.failed + 1) as u32, ..self }
        } else if is_dsp {
            PinRun { dsp: (self.dsp + 1) as u32, ..self }
        } else {
            PinRun { aux: (self.aux + 1) as u32, ..self }
        }
    }

    /// The run after threads, each given by whether it is the one that renders and
    /// whether it could be pinned.
    pub open spec fn after_all(self, outcomes: Seq<(bool, bool)>) -> PinRun
        decreases outcomes.len(),
    {
        if outcomes.len() == 0 {
            self
        } else {
            self.after_all(outcomes.drop_last()).after(outcomes.last().0, outcomes.last().1)
        }
    }

    /// The threads could not be listed.
    pub fn unreadable(&self, chain: &mut Chain, error: &str) -> (log: String)
        ensures
            *final(chain) == old(chain).with(NodeId::Pin, NodeState::Off),
            log@ == "[pin] cannot read "@ + tasks_of(self.pid as nat) + ": "@ + error@,
    {
        chain.set_node_state(NodeId::Pin, NodeState::Off);
        let mut out = "[pin] cannot read ".to_owned();
        out.append(task_dir(self.pid).as_str());
        out.append(": ");
        out.append(error);
        out
    }

    /// A thread was pinned, or could not be.
    pub fn pinned(&mut self, target: &PinTarget, tid: &str, ok: bool) -> (log: Option<String>)
        requires
            old(self).count(target.is_dsp, ok) < u32::MAX,
        ensures
            *final(self) == old(self).after(target.is_dsp, ok),
            final(self).threads() == old(self).threads() + 1,
            match log {
                Some(m) => ok && target.is_dsp && m@ == "[pin] "@ + target.comm@ + " (tid "@ + tid@
                    + ") -> cpu "@ + target.cpu@,
                None => !ok || !target.is_dsp,
            },
    {
        if !ok {
            self.failed = self.failed + 1;
            return None;
        }
        if !target.is_dsp {
            self.aux = self.aux + 1;
            return None;
        }
        self.dsp = self.dsp + 1;
        let mut out = "[pin] ".to_owned();
        out.append(target.comm.as_str());
        out.append(" (tid ");
        out.append(tid);
        out.append(") -> cpu ");
        out.append(target.cpu);
        Some(out)
    }

    /// Every thread was gone through. The node is ready where the thread that renders was
    /// pinned; without it the server is not connected yet.
    pub fn finish(&self, chain: &mut Chain) -> (report: PinReport)
        ensures
            *final(chain) == old(chain).with(
                NodeId::Pin,
                if self.dsp >= 1 {
                    NodeState::Ready
                } else {
                    NodeState::Off
                },
            ),
            match report.warning {
                Some(w) => self.dsp == 0 && w@ == "[pin] WARNING: no "@ + ORBITS_DSP_THREAD@
                    + " thread -- is the server connected?"@,
                None => self.dsp > 0,
            },
            report.summary@ == summary_text(*self),
            self.failed == 0 ==> report.summary@ == "[pin] scsynth "@ + decimal(self.pid as nat)
                + ": "@ + decimal(self.dsp as nat) + " dsp on cpu "@ + "4"@ + ", "@ + decimal(
                self.aux as nat,
            ) + " aux on cpu "@ + "10"@,
            self.failed > 0 ==> report.summary@ == "[pin] scsynth "@ + decimal(self.pid as nat)
                + ": "@ + decimal(self.dsp as nat) + " dsp on cpu "@ + "4"@ + ", "@ + decimal(
                self.aux as nat,
            ) + " aux on cpu "@ + "10"@ + ", "@ + decimal(self.failed as nat) + " failed"@,
            final(chain).pin == if self.dsp >= 1 {
                NodeState::Ready
            } else {
                NodeState::Off
            },
    {
        let warning = if self.dsp == 0 {
            let mut w = "[pin] WARNING: no ".to_owned();
            w.append(ORBITS_DSP_THREAD);
            w.append(" thread -- is the server connected?");
            Some(w)
        } else {
            None
        };
        let mut out = "[pin] scsynth ".to_owned();
        push_decimal(&mut out, self.pid as u64);
        out.append(": ");
        push_decimal(&mut out, self.dsp as u64);
        out.append(" dsp on cpu ");
        out.append(ORBITS_DSP_CPU);
        out.append(", ");
        push_decimal(&mut out, self.aux as u64);
        out.append(" aux on cpu ");
        out.append(ORBITS_AUX_CPU);
        if self.failed > 0 {
            out.append(", ");
            push_decimal(&mut out, self.failed as u64);
            out.append(" failed");
        }
        chain.set_node_state(
            NodeId::Pin,
            if self.dsp >= 1 {
                NodeState::Ready
            } else {
                NodeState::Off
            },
        );
        PinReport { warning, summary: out }
    }
}

// ---- laws -------------------------------------------------------------------------

/// A fresh run of a process.
pub open spec fn fresh(pid: u32) -> PinRun {
    PinRun { pid, dsp: 0, aux: 0, failed: 0 }
}

/// Every thread is accounted for, once.
pub proof fn law_every_thread_counted(pid: u32, outcomes: Seq<(bool, bool)>)
    requires
        outcomes.len() <= u32::MAX,
    ensures
        fresh(pid).after_all(outcomes).threads() == outcomes.len(),
        fresh(pid).after_all(outcomes).pid == pid,
    decreases outcomes.len(),
{
    if outcomes.len() > 0 {
        law_every_thread_counted(pid, outcomes.drop_last());
    }
}

/// The run counts a thread that renders, which is what makes the node ready, where and
/// only where one was pinned.
pub proof fn law_ready_where_renderer_pinned(pid: u32, outcomes: Seq<(bool, bool)>)
    requires
        outcomes.len() <= u32::MAX,
    ensures
        fresh(pid).after_all(outcomes).dsp >= 1 <==> outcomes.contains((true, true)),
    decreases outcomes.len(),
{
    if outcomes.len() > 0 {
        let head = outcomes.drop_last();
        law_ready_where_renderer_pinned(pid, head);
        law_every_thread_counted(pid, head);
        assert(outcomes == head.push(outcomes.last()));
        if head.contains((true, true)) {
            let i = choose|i: int| 0 <= i < head.len() && head[i] == (true, true);
            assert(outcomes[i] == (true, true));
        }
        if outcomes.contains((true, true)) {
            let i = choose|i: int| 0 <= i < outcomes.len() && outcomes[i] == (true, true);
            if i < head.len() {
                assert(head[i] == (true, true));
            }
        }
        if outcomes.last() == (true, true) {
            assert(outcomes[outcomes.len() - 1] == (true, true));
        }
    }
}

/// The CPU of the thread that renders is left to it: no other thread is sent there.
pub proof fn law_renderer_has_its_cpu(t: PinTarget, comm: Seq<char>)
    requires
        target_of(t, comm),
    ensures
        t.cpu@ == ORBITS_DSP_CPU@ <==> trim(comm) == ORBITS_DSP_THREAD@,
{
    reveal_strlit("4");
    reveal_strlit("10");
    assert("4"@.len() != "10"@.len());
}

/// The counts of a run are what happened: each thread counts once, as one that renders and
/// was pinned, as another that was pinned, or as one that could not be, and none of the
/// other counts moves.
pub proof fn law_each_thread_counts_as_what_it_is(run: PinRun, is_dsp: bool, ok: bool)
    requires
        run.dsp < u32::MAX,
        run.aux < u32::MAX,
        run.failed < u32::MAX,
    ensures
        run.after(is_dsp, ok).pid == run.pid,
        run.after(is_dsp, ok).dsp == run.dsp + if ok && is_dsp {
            1int
        } else {
            0
        },
        run.after(is_dsp, ok).aux == run.aux + if ok && !is_dsp {
            1int
        } else {
            0
        },
        run.after(is_dsp, ok).failed == run.failed + if ok {
            0int
        } else {
            1
        },
{
}

/// The thread that renders is known by its name, whatever white space the kernel gives
/// around it, and no other name is taken for it.
pub proof fn law_renderer_is_known(t: PinTarget, u: Seq<char>, name: Seq<char>, v: Seq<char>)
    requires
        forall|i: int| 0 <= i < u.len() ==> CharClass::WhiteSpace.has(#[trigger] u[i]),
        forall|i: int| 0 <= i < v.len() ==> CharClass::WhiteSpace.has(#[trigger] v[i]),
        name.len() > 0 ==> !CharClass::WhiteSpace.has(name[0]) && !CharClass::WhiteSpace.has(
            name.last(),
        ),
        target_of(t, u + name + v),
    ensures
        t.comm@ == name,
        t.is_dsp <==> name == "data-loop.0"@,
        name == "data-loop.0"@ ==> t.cpu@ == "4"@,
        name != "data-loop.0"@ ==> t.cpu@ == "10"@,
{
    law_strip(u, name, v, CharClass::WhiteSpace);
}

/// The threads of a process are listed under its number.
pub proof fn law_tasks_of(pid: nat)
    ensures
        tasks_of(pid) == seq!['/', 'p', 'r', 'o', 'c', '/'] + decimal(pid) + seq![
            '/',
            't',
            'a',
            's',
            'k',
        ],
{
    reveal_strlit("/proc/");
    reveal_strlit("/task");
    assert("/proc/"@ == seq!['/', 'p', 'r', 'o', 'c', '/']);
    assert("/task"@ == seq!['/', 't', 'a', 's', 'k']);
}

} // verus!
