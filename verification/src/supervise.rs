//! The child processes: when one is launched, what goes to its stdin, what its output
//! says, and when it is told to end.

use vstd::prelude::*;
use vstd::utf8::{decode_utf8, valid_utf8};

use crate::chain::{Chain, NodeId, NodeState};
use crate::config::{
    orbits_sclang_args, orbits_scsynth_args, sclang_command, scsynth_command, texts, tidal_args,
    tidal_command, vocals_args, vocals_command, ORBITS_BOOT_CMD, ORBITS_PORT, SCLANG_PORT,
};
use crate::number::{decimal, law_decimal_reads_back, lemma_decimal_digits, parse_u32, parsed_u32};
use crate::rec::{rec_after, update_shows, RecUpdate, Recording};
use crate::text::{
    chars_of, contains, first_in, first_word, has_text, law_first_word,
    law_found_only_where_it_stands, law_found_where_it_stands, lemma_first_in_unique, lines,
    lossy_utf8, same, text_of_bytes, word_first, CharClass,
};

verus! {

/// The line of output that proves a node ready.
#[derive(Clone, Copy, Debug)]
pub struct ReadyMarker {
    pub marker: &'static str,
    pub node: NodeId,
}

/// What to launch.
pub struct Launch {
    pub name: &'static str,
    pub args: Vec<String>,
    /// The first line for its stdin.
    pub init: Option<&'static str>,
    pub ready: Option<ReadyMarker>,
    pub node: Option<NodeId>,
}

/// A log line of a process.
pub open spec fn tagged(name: Seq<char>, message: Seq<char>) -> Seq<char> {
    "["@ + name + "] "@ + message
}

pub fn tag(name: &str, message: &str) -> (r: String)
    ensures
        r@ == tagged(name@, message@),
        r@ == seq!['['] + name@ + seq![']', ' '] + message@,
{
    proof {
        law_tagged(name@, message@);
    }
    let mut out = "[".to_owned();
    out.append(name);
    out.append("] ");
    out.append(message);
    out
}

/// `a` and `b` in one text.
pub fn joined2(a: &str, b: &str) -> (r: String)
    ensures
        r@ == a@ + b@,
{
    let mut out = a.to_owned();
    out.append(b);
    out
}

// ---- launching ------------------------------------------------------------------

/// scsynth alone, without sclang and SuperDirt.
pub fn boot_orbits_scsynth(quantum: u32) -> (r: Launch)
    ensures
        r.name@ == "orbits"@,
        texts(r.args@) == scsynth_command(quantum as nat),
        r.init is None,
        r.ready matches Some(m) && m.marker@ == "server ready"@ && m.node == NodeId::Sclang,
        r.node == Some(NodeId::Sclang),
{
    Launch {
        name: "orbits",
        args: orbits_scsynth_args(quantum),
        init: None,
        ready: Some(ReadyMarker { marker: "server ready", node: NodeId::Sclang }),
        node: Some(NodeId::Sclang),
    }
}

/// sclang, which boots the rest of the stack.
pub fn boot_orbits_sclang() -> (r: Launch)
    ensures
        r.name@ == "orbits"@,
        texts(r.args@) == sclang_command(),
        r.init matches Some(code) && code@ == ORBITS_BOOT_CMD@,
        r.ready matches Some(m) && m.marker@ == "HUB: scsynth="@ && m.node == NodeId::Sclang,
        r.node == Some(NodeId::Sclang),
{
    Launch {
        name: "orbits",
        args: orbits_sclang_args(),
        init: Some(ORBITS_BOOT_CMD),
        ready: Some(ReadyMarker { marker: "HUB: scsynth=", node: NodeId::Sclang }),
        node: Some(NodeId::Sclang),
    }
}

/// The vocals' scsynth. No line of its own proves it ready.
pub fn boot_vocals() -> (r: Launch)
    ensures
        r.name@ == "vocals"@,
        texts(r.args@) == vocals_command(),
        r.init is None,
        r.ready is None,
        r.node == Some(NodeId::Vocals),
{
    Launch {
        name: "vocals",
        args: vocals_args(),
        init: None,
        ready: None,
        node: Some(NodeId::Vocals),
    }
}

/// Tidal, in ghci.
pub fn boot_tidal() -> (r: Launch)
    ensures
        r.name@ == "tidal"@,
        texts(r.args@) == tidal_command(),
        r.init is None,
        r.ready matches Some(m) && m.marker@ == "Connected to SuperDirt."@ && m.node
            == NodeId::Tidal,
        r.node == Some(NodeId::Tidal),
{
    Launch {
        name: "tidal",
        args: tidal_args(),
        init: None,
        ready: Some(ReadyMarker { marker: "Connected to SuperDirt.", node: NodeId::Tidal }),
        node: Some(NodeId::Tidal),
    }
}

/// The parts in one text, with a space between each two.
pub open spec fn spaced(parts: Seq<Seq<char>>) -> Seq<char>
    decreases parts.len(),
{
    if parts.len() == 0 {
        Seq::empty()
    } else if parts.len() == 1 {
        parts[0]
    } else {
        spaced(parts.drop_last()) + " "@ + parts.last()
    }
}

fn join_args(args: &Vec<String>) -> (r: String)
    ensures
        r@ == spaced(texts(args@)),
{
    let mut out = String::new();
    let mut i: usize = 0;
    while i < args.len()
        invariant
            i <= args@.len(),
            out@ == spaced(texts(args@).take(i as int)),
        decreases args@.len() - i,
    {
        let ghost next = texts(args@).take(i + 1);
        assert(next.drop_last() == texts(args@).take(i as int));
        assert(next.last() == args@[i as int]@);
        if i > 0 {
            out.append(" ");
        }
        out.append(args[i].as_str());
        assert(i == 0 ==> out@ == args@[0]@);
        i += 1;
    }
    assert(texts(args@).take(i as int) == texts(args@));
    out
}

/// What to do about a request to launch.
pub enum SpawnStep {
    /// Nothing but log.
    Refuse { log: String },
    /// Nothing but log the command line, and that there is none.
    NoCommand { command: String, log: String },
    /// Log the command line, and run the program.
    Run { command: String, program: String, rest: Vec<String> },
}

/// A line for a child's stdin, and what is logged of it.
pub struct StdinWrite {
    pub log: String,
    pub line: String,
}

/// `w` writes `code` and the end of a line, and logs the code.
pub open spec fn writes(w: StdinWrite, name: Seq<char>, code: Seq<char>) -> bool {
    &&& w.log@ == tagged(name, "> "@ + code)
    &&& w.line@ == code + "\n"@
}

fn write_line(name: &str, code: &str) -> (w: StdinWrite)
    ensures
        writes(w, name@, code@),
        w.line@ == code@.push('\n'),
{
    proof {
        reveal_strlit("\n");
        assert(code@ + "\n"@ == code@.push('\n'));
    }
    StdinWrite { log: tag(name, joined2("> ", code).as_str()), line: joined2(code, "\n") }
}

/// What to do about a line for a child.
pub enum SendStep {
    NotRunning { log: String },
    Send(StdinWrite),
}

/// What follows a launch: the first line for the child, and what to log of the chain.
pub struct LaunchStep {
    pub first: Option<StdinWrite>,
    pub chain: Option<&'static str>,
}

/// What to log of a child that exited.
pub struct ExitLog {
    pub chain: Option<&'static str>,
    pub log: String,
}

/// The place of one child process. It is taken while the child runs and its stdin can be
/// written to.
pub struct ProcSlot {
    pub running: bool,
}

impl ProcSlot {
    pub fn new() -> (r: ProcSlot)
        ensures
            !r.running,
    {
        ProcSlot { running: false }
    }

    /// A request to launch. A slot that is taken launches no second copy.
    pub fn spawn_proc(&self, launch: &Launch) -> (step: SpawnStep)
        ensures
            match step {
                SpawnStep::Refuse { log } => self.running && log@ == tagged(
                    launch.name@,
                    "already running"@,
                ),
                SpawnStep::NoCommand { command, log } => !self.running && launch.args@.len() == 0
                    && command@ == tagged(launch.name@, "$ "@) && log@ == tagged(
                    launch.name@,
                    "no command given"@,
                ),
                SpawnStep::Run { command, program, rest } => !self.running && launch.args@.len() > 0
                    && command@ == tagged(launch.name@, "$ "@ + spaced(texts(launch.args@)))
                    && seq![program@] + texts(rest@) == texts(launch.args@),
            },
    {
        if self.running {
            return SpawnStep::Refuse { log: tag(launch.name, "already running") };
        }
        let line = join_args(&launch.args);
        if launch.args.len() == 0 {
            return SpawnStep::NoCommand {
                command: tag(launch.name, "$ "),
                log: tag(launch.name, "no command given"),
            };
        }
        let command = tag(launch.name, joined2("$ ", line.as_str()).as_str());
        let program = launch.args[0].clone();
        let mut rest: Vec<String> = Vec::new();
        let mut i: usize = 1;
        while i < launch.args.len()
            invariant
                1 <= i <= launch.args@.len(),
                texts(rest@) == texts(launch.args@).subrange(1, i as int),
            decreases launch.args@.len() - i,
        {
            rest.push(launch.args[i].clone());
            assert(texts(rest@) == texts(rest@.drop_last()).push(launch.args@[i as int]@));
            assert(texts(launch.args@).subrange(1, i + 1) == texts(launch.args@).subrange(
                1,
                i as int,
            ).push(launch.args@[i as int]@));
            i += 1;
        }
        assert(seq![program@] + texts(rest@) == texts(launch.args@));
        SpawnStep::Run { command, program, rest }
    }

    /// The child was launched, with or without a stdin to write to: the slot is taken, and
    /// the chain moves as the child's node does. Its first line, where it has one, goes
    /// ahead of every other.
    pub fn launched(&mut self, launch: &Launch, has_stdin: bool, chain: &mut Chain) -> (step:
        LaunchStep)
        requires
            !old(self).running,
        ensures
            final(self).running == has_stdin,
            *final(chain) == old(chain).spawned(launch.node),
            match step.first {
                Some(w) => has_stdin && launch.init is Some && writes(
                    w,
                    launch.name@,
                    launch.init->0@,
                ),
                None => !has_stdin || launch.init is None,
            },
            step.first matches Some(w) ==> w.line@ == (launch.init->0)@.push('\n'),
            launch.node == Some(NodeId::Sclang) <==> step.chain is Some,
            step.chain matches Some(m) ==> m@
                == "[chain] fresh sclang: CONNECT and PIN must run again; restart Tidal"@,
    {
        self.running = has_stdin;
        let first = match launch.init {
            Some(code) if has_stdin => Some(write_line(launch.name, code)),
            _ => None,
        };
        LaunchStep { first, chain: chain.mark_spawned(launch.node) }
    }

    /// The child exited: the slot is free, and the chain loses what hung on the child.
    pub fn exited(&mut self, launch: &Launch, chain: &mut Chain) -> (logs: ExitLog)
        ensures
            !final(self).running,
            *final(chain) == old(chain).exited(launch.node),
            launch.node == Some(NodeId::Sclang) <==> logs.chain is Some,
            logs.chain matches Some(m) ==> m@
                == "[chain] sclang gone: boot the chain again, tidal included"@,
            logs.log@ == tagged(launch.name@, "exited"@),
    {
        self.running = false;
        let gone = chain.mark_exited(launch.node);
        ExitLog { chain: gone, log: tag(launch.name, "exited") }
    }

    /// A line of code for the child.
    pub fn send_line(&self, name: &str, code: &str) -> (step: SendStep)
        ensures
            match step {
                SendStep::NotRunning { log } => !self.running && log@ == tagged(
                    name@,
                    "not running -- boot it first"@,
                ),
                SendStep::Send(w) => self.running && writes(w, name@, code@),
            },
            step matches SendStep::Send(w) ==> w.line@ == code@.push('\n'),
    {
        if self.running {
            SendStep::Send(write_line(name, code))
        } else {
            SendStep::NotRunning { log: tag(name, "not running -- boot it first") }
        }
    }
}

/// What can go wrong with a child.
#[derive(Clone, Copy, Debug, PartialEq, Eq, Structural)]
pub enum Trouble {
    Launch,
    BootWrite,
    Write,
    Flush,
}

/// What is logged of a trouble, before the error.
pub open spec fn trouble_text(t: Trouble) -> Seq<char> {
    match t {
        Trouble::Launch => "failed to launch: "@,
        Trouble::BootWrite => "boot write failed: "@,
        Trouble::Write => "write failed: "@,
        Trouble::Flush => "flush failed: "@,
    }
}

pub fn trouble_log(name: &str, trouble: Trouble, error: &str) -> (r: String)
    ensures
        r@ == tagged(name@, trouble_text(trouble) + error@),
{
    let head = match trouble {
        Trouble::Launch => "failed to launch: ",
        Trouble::BootWrite => "boot write failed: ",
        Trouble::Write => "write failed: ",
        Trouble::Flush => "flush failed: ",
    };
    tag(name, joined2(head, error).as_str())
}

// ---- servers --------------------------------------------------------------------

/// Whether `pgrep` found a process: it printed something.
pub fn is_process_running(pgrep: Option<&[u8]>) -> (r: bool)
    ensures
        r == (pgrep matches Some(out) && out@.len() > 0),
{
    match pgrep {
        Some(out) => out.len() > 0,
        None => false,
    }
}

/// What `pgrep` looks for: scsynth with that port, and anything in between. A server
/// that sclang booted has an address there.
pub fn server_pattern(port: &str) -> (r: String)
    ensures
        r@ == "scsynth.*-u "@ + port@,
{
    joined2("scsynth.*-u ", port)
}

/// What `pkill` ends a server by.
pub fn kill_server(port: &str) -> (r: String)
    ensures
        r@ == "scsynth -u "@ + port@,
{
    joined2("scsynth -u ", port)
}

/// What `pkill` ends the orbits by: their server, then their sclang, which its port
/// tells from any other.
pub fn kill_orbits() -> (r: Vec<String>)
    ensures
        texts(r@) == seq!["scsynth -u "@ + ORBITS_PORT@, "sclang -u "@ + SCLANG_PORT@],
{
    let mut out: Vec<String> = Vec::new();
    out.push(kill_server(ORBITS_PORT));
    out.push(joined2("sclang -u ", SCLANG_PORT));
    out
}

/// What is logged before `pkill` runs.
pub fn kill_log(pattern: &str) -> (r: String)
    ensures
        r@ == "$ pkill -f \""@ + pattern@ + "\""@,
{
    let mut out = "$ pkill -f \"".to_owned();
    out.append(pattern);
    out.append("\"");
    out
}

/// The first process that `pgrep` printed.
pub open spec fn number_in_front(printed: Seq<char>) -> Option<u32> {
    match first_word(printed) {
        Some(word) => parsed_u32(word),
        None => None,
    }
}

pub fn pid_in(printed: &str) -> (r: Option<u32>)
    ensures
        r == number_in_front(printed@),
{
    match word_first(chars_of(printed).as_slice()) {
        Some(word) => parse_u32(word),
        None => None,
    }
}

/// The process of the orbits' scsynth, from what `pgrep` printed.
pub fn orbits_scsynth_pid(pgrep: Option<&[u8]>) -> (r: Option<u32>)
    ensures
        r == match pgrep {
            Some(out) => number_in_front(lossy_utf8(out@)),
            None => None,
        },
        pgrep is Some && valid_utf8(pgrep->0@) ==> r == number_in_front(decode_utf8(pgrep->0@)),
{
    match pgrep {
        Some(out) => pid_in(text_of_bytes(out).as_str()),
        None => None,
    }
}

/// What to do about a request to boot a server.
pub enum BootStep {
    /// There is one on that port already.
    Skip { log: String },
    /// Go on and launch it.
    Boot { log: String },
}

pub fn boot_server(name: &str, port: &str, pgrep: Option<&[u8]>) -> (step: BootStep)
    ensures
        match step {
            BootStep::Skip { log } => (pgrep matches Some(out) && out@.len() > 0) && log@ == tagged(
                name@,
                "already running on "@ + port@ + ", skipping boot"@,
            ),
            BootStep::Boot { log } => !(pgrep matches Some(out) && out@.len() > 0) && log@
                == tagged(name@, "booting on port "@ + port@ + "..."@),
        },
{
    if is_process_running(pgrep) {
        let mut message = "already running on ".to_owned();
        message.append(port);
        message.append(", skipping boot");
        BootStep::Skip { log: tag(name, message.as_str()) }
    } else {
        let mut message = "booting on port ".to_owned();
        message.append(port);
        message.append("...");
        BootStep::Boot { log: tag(name, message.as_str()) }
    }
}

// ---- output ---------------------------------------------------------------------

/// The eye on the output of one child. Its stdout and its stderr share it.
#[derive(Clone, Copy, Debug)]
pub struct Watch {
    pub name: &'static str,
    pub ready: Option<ReadyMarker>,
    /// The readiness line was seen.
    pub seen: bool,
}

/// What a line of output leads to.
pub struct WatchStep {
    pub rec: Option<RecUpdate>,
    pub log: String,
}

impl Watch {
    pub open spec fn marks(self, line: Seq<char>) -> bool {
        self.ready matches Some(m) && contains(line, m.marker@)
    }

    /// The line makes the node ready.
    pub open spec fn promotes(self, line: Seq<char>) -> bool {
        self.marks(line) && !self.seen
    }

    pub open spec fn after(self, line: Seq<char>) -> Watch {
        Watch { seen: self.seen || self.marks(line), ..self }
    }

    pub open spec fn after_all(self, ls: Seq<Seq<char>>) -> Watch
        decreases ls.len(),
    {
        if ls.len() == 0 {
            self
        } else {
            self.after_all(ls.drop_last()).after(ls.last())
        }
    }

    /// The eye on a child that was just launched.
    pub fn new(launch: &Launch) -> (r: Watch)
        ensures
            r == (Watch { name: launch.name, ready: launch.ready, seen: false }),
    {
        Watch { name: launch.name, ready: launch.ready, seen: false }
    }

    /// A line of the child's output. The first one with the marker makes the node ready;
    /// the orbits' lines also tell of recordings.
    pub fn watch_line(&mut self, chain: &mut Chain, rec: &mut Recording, line: &str) -> (step:
        WatchStep)
        ensures
            *final(self) == old(self).after(line@),
            *final(chain) == if old(self).promotes(line@) {
                old(chain).with(old(self).ready->0.node, NodeState::Ready)
            } else {
                *old(chain)
            },
            old(self).name@ == "orbits"@ ==> *final(rec) == rec_after(*old(rec), line@)
                && update_shows(*old(rec), line@, step.rec),
            old(self).name@ != "orbits"@ ==> *final(rec) == *old(rec) && step.rec is None,
            step.log@ == tagged(old(self).name@, line@),
            old(self).ready matches Some(m) ==> forall|a: Seq<char>, b: Seq<char>|
                !old(self).seen && line@ == #[trigger] (a + m.marker@ + b) ==> final(self).seen
                    && final(chain).state(m.node) == NodeState::Ready,
            (old(self).ready matches Some(m) ==> forall|a: Seq<char>, b: Seq<char>|
                line@ != #[trigger] (a + m.marker@ + b)) ==> *final(chain) == *old(chain)
                && final(self).seen == old(self).seen,
    {
        proof {
            if let Some(m) = self.ready {
                assert forall|a: Seq<char>, b: Seq<char>|
                    line@ == #[trigger] (a + m.marker@ + b) implies self.marks(line@) by {
                    law_marker_counts_wherever_it_stands(*self, a, b);
                }
                if self.marks(line@) {
                    law_found_only_where_it_stands(line@, m.marker@);
                }
            }
        }
        if let Some(m) = self.ready {
            if has_text(chars_of(line).as_slice(), chars_of(m.marker).as_slice()) {
                if !self.seen {
                    self.seen = true;
                    chain.set_node_state(m.node, NodeState::Ready);
                }
            }
        }
        let update = if same(chars_of(self.name).as_slice(), chars_of("orbits").as_slice()) {
            rec.handle_rec_line(line)
        } else {
            None
        };
        WatchStep { rec: update, log: tag(self.name, line) }
    }
}

// ---- laws -----------------------------------------------------------------------

/// A child makes its node ready at most once: no line behind the one that did does it
/// again.
pub proof fn law_promoted_once(w: Watch, ls: Seq<Seq<char>>, i: int, j: int)
    requires
        0 <= i < j < ls.len(),
        w.after_all(ls.take(i)).promotes(ls[i]),
    ensures
        !w.after_all(ls.take(j)).promotes(ls[j]),
{
    let next = ls.take(i + 1);
    assert(next.drop_last() == ls.take(i));
    assert(w.after_all(next).seen);
    lemma_seen_stays(w, ls, i + 1, j);
}

proof fn lemma_seen_stays(w: Watch, ls: Seq<Seq<char>>, i: int, j: int)
    requires
        0 <= i <= j <= ls.len(),
        w.after_all(ls.take(i)).seen,
    ensures
        w.after_all(ls.take(j)).seen,
    decreases j - i,
{
    if i < j {
        assert(ls.take(j).drop_last() == ls.take(j - 1));
        lemma_seen_stays(w, ls, i, j - 1);
    }
}

/// The marker is not missed: a child that printed it made its node ready.
pub proof fn law_marker_is_seen(w: Watch, ls: Seq<Seq<char>>, i: int)
    requires
        0 <= i < ls.len(),
        w.marks(ls[i]),
    ensures
        w.after_all(ls).seen,
{
    lemma_watch_keeps(w, ls.take(i));
    assert(ls.take(i + 1).drop_last() == ls.take(i));
    lemma_seen_stays(w, ls, i + 1, ls.len() as int);
    assert(ls.take(ls.len() as int) == ls);
}

proof fn lemma_watch_keeps(w: Watch, ls: Seq<Seq<char>>)
    ensures
        w.after_all(ls).ready == w.ready,
    decreases ls.len(),
{
    if ls.len() > 0 {
        lemma_watch_keeps(w, ls.drop_last());
    }
}

/// What a child's stdin got of lines that were sent one by one.
pub open spec fn stdin_text(codes: Seq<Seq<char>>) -> Seq<char>
    decreases codes.len(),
{
    if codes.len() == 0 {
        Seq::empty()
    } else {
        codes[0] + "\n"@ + stdin_text(codes.skip(1))
    }
}

/// Lines reach the child as they were sent: it reads back the same lines in the same
/// order. A line holds no end of line; and a carriage return at its end would be taken
/// for part of one.
pub proof fn law_lines_arrive_verbatim(codes: Seq<Seq<char>>)
    requires
        forall|i: int, k: int|
            0 <= i < codes.len() && 0 <= k < codes[i].len() ==> #[trigger] codes[i][k] != '\n',
        forall|i: int|
            0 <= i < codes.len() && codes[i].len() > 0 ==> (#[trigger] codes[i]).last() != '\r',
    ensures
        lines(stdin_text(codes)) == codes,
    decreases codes.len(),
{
    reveal_strlit("\n");
    if codes.len() > 0 {
        let rest = codes.skip(1);
        assert forall|i: int, k: int|
            0 <= i < rest.len() && 0 <= k < rest[i].len() implies #[trigger] rest[i][k] != '\n' by {
            assert(codes[i + 1][k] != '\n');
        }
        assert forall|i: int| 0 <= i < rest.len() && rest[i].len() > 0 implies (
        #[trigger] rest[i]).last() != '\r' by {
            assert(codes[i + 1].last() != '\r');
        }
        law_lines_arrive_verbatim(rest);
        let t = stdin_text(codes);
        let n = codes[0].len() as int;
        let end = CharClass::Only('\n');
        assert forall|k: int| 0 <= k < n implies !end.has(#[trigger] t[k]) by {
            assert(t[k] == codes[0][k]);
        }
        assert(t[n] == '\n');
        lemma_first_in_unique(t, end, n);
        assert(t.take(n) == codes[0]);
        assert(t.skip(n + 1) == stdin_text(rest));
        assert(codes == seq![codes[0]] + rest);
    } else {
        assert(lines(stdin_text(codes)) == codes);
    }
}

/// A log line is the name in brackets, a space and the message, both whole.
pub proof fn law_tagged(name: Seq<char>, message: Seq<char>)
    ensures
        tagged(name, message) == seq!['['] + name + seq![']', ' '] + message,
        tagged(name, message).skip((name.len() + 3) as int) == message,
{
    reveal_strlit("[");
    reveal_strlit("] ");
    assert("["@ == seq!['[']);
    assert("] "@ == seq![']', ' ']);
    assert(tagged(name, message).skip((name.len() + 3) as int) == message);
}

/// The marker makes its node ready wherever in a line it stands, the two ends included and
/// whatever stands around it, where it was not seen before.
pub proof fn law_marker_counts_wherever_it_stands(w: Watch, a: Seq<char>, b: Seq<char>)
    requires
        w.ready is Some,
    ensures
        w.marks(a + w.ready->0.marker@ + b),
        w.after(a + w.ready->0.marker@ + b).seen,
        !w.seen ==> w.promotes(a + w.ready->0.marker@ + b),
{
    law_found_where_it_stands(a, w.ready->0.marker@, b);
}

/// A line in which the marker stands nowhere makes no node ready, nor does any line of a
/// child without a marker.
pub proof fn law_only_the_marker_counts(w: Watch, line: Seq<char>)
    requires
        w.ready matches Some(m) ==> forall|a: Seq<char>, b: Seq<char>|
            line != #[trigger] (a + m.marker@ + b),
    ensures
        !w.marks(line),
        !w.promotes(line),
        w.after(line) == w,
{
    if w.marks(line) {
        law_found_only_where_it_stands(line, w.ready->0.marker@);
    }
}

/// What reaches a child's stdin of a line is the line, character by character and with its
/// white space, and one line feed.
pub proof fn law_line_is_handed_over_whole(w: StdinWrite, name: Seq<char>, code: Seq<char>)
    requires
        writes(w, name, code),
    ensures
        w.line@.len() == code.len() + 1,
        forall|k: int| 0 <= k < code.len() ==> #[trigger] w.line@[k] == code[k],
        w.line@.last() == '\n',
        w.log@ == seq!['['] + name + seq![']', ' ', '>', ' '] + code,
{
    reveal_strlit("\n");
    reveal_strlit("> ");
    law_tagged(name, "> "@ + code);
    assert(w.log@ == seq!['['] + name + seq![']', ' ', '>', ' '] + code);
}

/// What a child's stdin got of writes, one behind the other.
pub open spec fn received(ws: Seq<StdinWrite>) -> Seq<char>
    decreases ws.len(),
{
    if ws.len() == 0 {
        Seq::empty()
    } else {
        ws[0].line@ + received(ws.skip(1))
    }
}

/// What stands before each line feed of a text, as a child reads its stdin.
pub open spec fn fed_lines(s: Seq<char>) -> Seq<Seq<char>>
    decreases s.len(),
{
    let n = first_in(s, CharClass::Only('\n'));
    if 0 <= n < s.len() {
        seq![s.take(n)] + fed_lines(s.skip(n + 1))
    } else {
        Seq::empty()
    }
}

/// Lines that are sent one by one are read by the child as exactly those lines, in their
/// order, with the white space at either end of each. A line holds no line feed.
pub proof fn law_sent_lines_arrive_verbatim(
    name: Seq<char>,
    codes: Seq<Seq<char>>,
    ws: Seq<StdinWrite>,
)
    requires
        ws.len() == codes.len(),
        forall|i: int| 0 <= i < ws.len() ==> writes(#[trigger] ws[i], name, codes[i]),
        forall|i: int, k: int|
            0 <= i < codes.len() && 0 <= k < codes[i].len() ==> #[trigger] codes[i][k] != '\n',
    ensures
        fed_lines(received(ws)) == codes,
    decreases ws.len(),
{
    let s = received(ws);
    let end = CharClass::Only('\n');
    if ws.len() > 0 {
        let (rest, after) = (codes.skip(1), ws.skip(1));
        assert(writes(ws[0], name, codes[0]));
        law_line_is_handed_over_whole(ws[0], name, codes[0]);
        assert forall|i: int| 0 <= i < after.len() implies writes(
            #[trigger] after[i],
            name,
            rest[i],
        ) by {
            assert(writes(ws[i + 1], name, codes[i + 1]));
        }
        assert forall|i: int, k: int|
            0 <= i < rest.len() && 0 <= k < rest[i].len() implies #[trigger] rest[i][k] != '\n' by {
            assert(codes[i + 1][k] != '\n');
        }
        law_sent_lines_arrive_verbatim(name, rest, after);
        let n = codes[0].len() as int;
        assert forall|k: int| 0 <= k < n implies !end.has(#[trigger] s[k]) by {
            assert(s[k] == ws[0].line@[k]);
            assert(codes[0][k] != '\n');
        }
        assert(s[n] == ws[0].line@.last());
        lemma_first_in_unique(s, end, n);
        assert(s.take(n) == codes[0]) by {
            assert forall|k: int| 0 <= k < n implies #[trigger] s.take(n)[k] == codes[0][k] by {
                assert(s[k] == ws[0].line@[k]);
            }
        }
        assert(s.skip(n + 1) == received(after));
        assert(codes == seq![codes[0]] + rest);
    } else {
        assert(fed_lines(s) == codes);
    }
}

/// A command line is logged with its parts whole and one space between each two: what is
/// logged of parts and of more parts is logged of both together, with a space between.
pub proof fn law_parts_are_spaced(p: Seq<Seq<char>>, q: Seq<Seq<char>>, part: Seq<char>)
    ensures
        p.len() > 0 && q.len() > 0 ==> spaced(p + q) == spaced(p) + seq![' '] + spaced(q),
        spaced(seq![part]) == part,
        spaced(Seq::empty()) == Seq::<char>::empty(),
    decreases q.len(),
{
    reveal_strlit(" ");
    assert(" "@ == seq![' ']);
    if p.len() > 0 && q.len() > 0 {
        assert((p + q).drop_last() == p + q.drop_last());
        assert((p + q).last() == q.last());
        if q.len() > 1 {
            law_parts_are_spaced(p, q.drop_last(), part);
            assert(spaced(p + q) == spaced(p) + seq![' '] + spaced(q));
        } else {
            assert(p + q.drop_last() == p);
        }
    }
}

/// The process that `pgrep` prints first is the one found, whatever stands behind it and
/// whatever white space before it; and where it prints no word, none is.
pub proof fn law_first_process_is_found(u: Seq<char>, pid: u32, v: Seq<char>)
    requires
        forall|i: int| 0 <= i < u.len() ==> CharClass::WhiteSpace.has(#[trigger] u[i]),
        v.len() > 0 ==> CharClass::WhiteSpace.has(v[0]),
    ensures
        number_in_front(u + decimal(pid as nat) + v) == Some(pid),
        number_in_front(u) is None,
{
    let d = decimal(pid as nat);
    lemma_decimal_digits(pid as nat);
    law_decimal_reads_back(pid);
    assert forall|i: int| 0 <= i < d.len() implies !CharClass::WhiteSpace.has(#[trigger] d[i]) by {
        assert(crate::text::ascii_digit(d[i]));
    }
    law_first_word(u, d, v);
}

} // verus!
