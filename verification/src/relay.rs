//! The editor relay: a port that takes lines and hands each of them to Tidal. It never
//! looks into them; ghci itself puts blocks together.
//!
//! The relay can be stopped and started again. A stop closes the listening socket;
//! connections that are open drain out.

use vstd::prelude::*;

use crate::config::EDITOR_PORT;
use crate::number::{decimal, push_decimal};
use crate::supervise::{joined2, tag, tagged, writes, ProcSlot, SendStep};

verus! {

/// The address that the relay listens on: this machine alone.
pub open spec fn editor_addr() -> Seq<char> {
    "127.0.0.1:"@ + decimal(EDITOR_PORT as nat)
}

pub fn relay_addr() -> (r: String)
    ensures
        r@ == editor_addr(),
{
    let mut out = "127.0.0.1:".to_owned();
    push_decimal(&mut out, EDITOR_PORT as u64);
    out
}

/// The relay. Each start is a generation of its own; `current` is the one that runs, and
/// `last` the latest that was started.
#[derive(Clone, Copy, Debug, PartialEq, Eq, Structural)]
pub struct Relay {
    pub current: Option<u64>,
    pub last: u64,
    /// What the panel shows.
    pub up: bool,
}

/// What to do about a request to start.
pub enum StartStep {
    AlreadyUp { log: &'static str },
    Serve { generation: u64 },
}

/// What to do about a request to stop.
pub enum StopStep {
    Shutdown { generation: u64 },
    NotRunning { log: &'static str },
}

/// What a listener meets.
pub enum ServeEvent {
    /// The port could not be bound, for a reason.
    BindFailed(String),
    Bound,
    Shutdown,
    /// A connection could not be accepted, for a reason.
    AcceptFailed(String),
    /// A peer connected.
    Connected(String),
}

/// What is logged of an event, and whether the listener goes on.
pub struct ServeStep {
    pub log: String,
    pub goes_on: bool,
}

/// What is logged of an event.
pub open spec fn serve_log(event: ServeEvent) -> Seq<char> {
    tagged(
        "edit"@,
        match event {
            ServeEvent::BindFailed(error) => "cannot bind "@ + editor_addr() + ": "@ + error@,
            ServeEvent::Bound => "listening on "@ + editor_addr(),
            ServeEvent::Shutdown => "relay stopped"@,
            ServeEvent::AcceptFailed(error) => "accept failed: "@ + error@,
            ServeEvent::Connected(peer) => "connected: "@ + peer@,
        },
    )
}

impl Relay {
    /// The generation that runs is one that was started.
    pub open spec fn wf(self) -> bool {
        self.current matches Some(generation) ==> 0 < generation <= self.last
    }

    /// The relay without that generation. Another one that runs is left alone.
    pub open spec fn cleared(self, generation: u64) -> Relay {
        if self.current == Some(generation) {
            Relay { current: None, ..self }
        } else {
            self
        }
    }

    /// The relay after a start: a new generation, where none runs.
    pub open spec fn started(self) -> Relay {
        if self.current is None {
            Relay { current: Some((self.last + 1) as u64), last: (self.last + 1) as u64, ..self }
        } else {
            self
        }
    }

    /// The relay after a stop.
    pub open spec fn stopped(self) -> Relay {
        Relay { current: None, ..self }
    }

    /// The relay after an event of a generation's listener.
    pub open spec fn after(self, generation: u64, event: ServeEvent) -> Relay {
        match event {
            ServeEvent::BindFailed(_) => self.cleared(generation),
            ServeEvent::Bound => Relay { up: true, ..self },
            ServeEvent::Shutdown => Relay { up: false, ..self.cleared(generation) },
            ServeEvent::AcceptFailed(_) => self,
            ServeEvent::Connected(_) => self,
        }
    }

    pub fn new() -> (r: Relay)
        ensures
            r.wf(),
            r == (Relay { current: None::<u64>, last: 0, up: false }),
    {
        Relay { current: None, last: 0, up: false }
    }

    /// A request to start. A relay that runs is not started again.
    pub fn relay_start(&mut self) -> (step: StartStep)
        requires
            old(self).wf(),
            old(self).current is None ==> old(self).last < u64::MAX,
        ensures
            final(self).wf(),
            *final(self) == old(self).started(),
            match step {
                StartStep::AlreadyUp { log } => old(self).current is Some && log@
                    == "[edit] relay already up"@,
                StartStep::Serve { generation } => old(self).current is None
                    && final(self).current == Some(generation),
            },
    {
        if self.current.is_some() {
            return StartStep::AlreadyUp { log: "[edit] relay already up" };
        }
        let generation: u64 = self.last + 1;
        self.last = generation;
        self.current = Some(generation);
        StartStep::Serve { generation }
    }

    /// A request to stop.
    pub fn relay_stop(&mut self) -> (step: StopStep)
        requires
            old(self).wf(),
        ensures
            final(self).wf(),
            *final(self) == old(self).stopped(),
            match step {
                StopStep::Shutdown { generation } => old(self).current == Some(generation),
                StopStep::NotRunning { log } => old(self).current is None && log@
                    == "[edit] relay not running"@,
            },
    {
        let current = self.current;
        self.current = None;
        match current {
            Some(generation) => StopStep::Shutdown { generation },
            None => StopStep::NotRunning { log: "[edit] relay not running" },
        }
    }

    /// The listener of a generation is done.
    pub fn clear_relay(&mut self, generation: u64)
        requires
            old(self).wf(),
        ensures
            final(self).wf(),
            *final(self) == old(self).cleared(generation),
    {
        if let Some(current) = self.current {
            if current == generation {
                self.current = None;
            }
        }
    }

    /// The listener of a generation met with an event.
    pub fn serve_editor(&mut self, generation: u64, event: &ServeEvent) -> (step: ServeStep)
        requires
            old(self).wf(),
        ensures
            final(self).wf(),
            *final(self) == old(self).after(generation, *event),
            step.log@ == serve_log(*event),
            match event {
                ServeEvent::BindFailed(error) => step.log@ == tagged(
                    "edit"@,
                    "cannot bind "@ + editor_addr() + ": "@ + error@,
                ),
                ServeEvent::Bound => step.log@ == tagged("edit"@, "listening on "@ + editor_addr()),
                ServeEvent::Shutdown => step.log@ == tagged("edit"@, "relay stopped"@),
                ServeEvent::AcceptFailed(error) => step.log@ == tagged(
                    "edit"@,
                    "accept failed: "@ + error@,
                ),
                ServeEvent::Connected(peer) => step.log@ == tagged("edit"@, "connected: "@ + peer@),
            },
            step.goes_on == !(event is BindFailed || event is Shutdown),
    {
        match event {
            ServeEvent::BindFailed(error) => {
                self.clear_relay(generation);
                let mut message = "cannot bind ".to_owned();
                message.append(relay_addr().as_str());
                message.append(": ");
                message.append(error.as_str());
                ServeStep { log: tag("edit", message.as_str()), goes_on: false }
            },
            ServeEvent::Bound => {
                self.up = true;
                let message = joined2("listening on ", relay_addr().as_str());
                ServeStep { log: tag("edit", message.as_str()), goes_on: true }
            },
            ServeEvent::Shutdown => {
                self.clear_relay(generation);
                self.up = false;
                ServeStep { log: tag("edit", "relay stopped"), goes_on: false }
            },
            ServeEvent::AcceptFailed(error) => {
                let message = joined2("accept failed: ", error.as_str());
                ServeStep { log: tag("edit", message.as_str()), goes_on: true }
            },
            ServeEvent::Connected(peer) => {
                let message = joined2("connected: ", peer.as_str());
                ServeStep { log: tag("edit", message.as_str()), goes_on: true }
            },
        }
    }
}

// ---- connections ------------------------------------------------------------------

/// One connection of an editor, and the lines that came over it.
pub struct EditorConn {
    pub peer: String,
    pub count: usize,
}

impl EditorConn {
    pub fn new(peer: String) -> (r: EditorConn)
        ensures
            r.peer@ == peer@,
            r.count == 0,
    {
        EditorConn { peer, count: 0 }
    }

    /// A line came. It goes to Tidal as it is.
    pub fn line(&mut self, tidal: &ProcSlot, line: &str) -> (step: SendStep)
        requires
            old(self).count < usize::MAX,
        ensures
            final(self).count == old(self).count + 1,
            final(self).peer == old(self).peer,
            match step {
                SendStep::NotRunning { log } => !tidal.running && log@ == tagged(
                    "tidal"@,
                    "not running -- boot it first"@,
                ),
                SendStep::Send(w) => tidal.running && writes(w, "tidal"@, line@),
            },
            step matches SendStep::Send(w) ==> w.line@ == line@.push('\n'),
    {
        self.count = self.count + 1;
        tidal.send_line("tidal", line)
    }

    /// The peer closed the connection.
    pub fn closed(&self) -> (log: String)
        ensures
            log@ == tagged(
                "edit"@,
                self.peer@ + " disconnected after "@ + decimal(self.count as nat) + " lines"@,
            ),
    {
        let mut message = self.peer.clone();
        message.append(" disconnected after ");
        push_decimal(&mut message, self.count as u64);
        message.append(" lines");
        tag("edit", message.as_str())
    }

    /// The connection failed, for a reason.
    pub fn read_failed(&self, error: &str) -> (log: String)
        ensures
            log@ == tagged("edit"@, "read error from "@ + self.peer@ + ": "@ + error@),
    {
        let mut message = "read error from ".to_owned();
        message.append(self.peer.as_str());
        message.append(": ");
        message.append(error);
        tag("edit", message.as_str())
    }
}

// ---- laws -------------------------------------------------------------------------

/// A listener's cleanup that comes late does not touch a relay that was started in the
/// meantime: a generation that was started before is never the one that runs now.
pub proof fn law_late_cleanup_is_harmless(r: Relay, old_generation: u64)
    requires
        r.wf(),
        r.current is None,
        r.last < u64::MAX,
        old_generation <= r.last,
    ensures
        r.started().current is Some,
        r.started().cleared(old_generation) == r.started(),
        r.started().after(old_generation, ServeEvent::Shutdown).current == r.started().current,
{
}

/// A restart runs a new generation, whatever ran before.
pub proof fn law_restart_is_a_new_generation(r: Relay)
    requires
        r.wf(),
        r.last < u64::MAX,
    ensures
        r.stopped().started().wf(),
        r.stopped().started().current is Some,
        r.stopped().started().current != r.current,
        r.current matches Some(generation) ==> r.stopped().started().cleared(generation)
            == r.stopped().started(),
{
}

/// Nothing that a listener meets starts a relay or changes which generation was started
/// last; and what ends a listener leaves the relay free to start again where it was that
/// listener's.
pub proof fn law_listeners_only_end(r: Relay, generation: u64, event: ServeEvent)
    requires
        r.wf(),
    ensures
        r.after(generation, event).wf(),
        r.after(generation, event).last == r.last,
        r.after(generation, event).current is None || r.after(generation, event).current
            == r.current,
        (event is BindFailed || event is Shutdown) && r.current == Some(generation) ==> r.after(
            generation,
            event,
        ).current is None,
{
}

/// What a listener meets leads to this and no more: one that could not bind its port or was
/// told to stop frees the relay where it is its own; the panel shows the relay up once the
/// port is bound and down once the listener stopped; and connections change nothing.
pub proof fn law_listener_events(r: Relay, generation: u64, text: String)
    ensures
        r.after(generation, ServeEvent::BindFailed(text)).up == r.up,
        r.after(generation, ServeEvent::BindFailed(text)).current == if r.current == Some(
            generation,
        ) {
            None
        } else {
            r.current
        },
        r.after(generation, ServeEvent::Bound) == (Relay { up: true, ..r }),
        r.after(generation, ServeEvent::Shutdown).up == false,
        r.after(generation, ServeEvent::Shutdown).current == if r.current == Some(generation) {
            None
        } else {
            r.current
        },
        r.after(generation, ServeEvent::AcceptFailed(text)) == r,
        r.after(generation, ServeEvent::Connected(text)) == r,
{
}

/// A start takes the relay where it is free, under the next number, and does nothing where it
/// is not; a stop frees it, and a start behind a stop always takes it.
pub proof fn law_start_and_stop(r: Relay)
    requires
        r.wf(),
        r.last < u64::MAX,
    ensures
        r.current is Some ==> r.started() == r,
        r.current is None ==> r.started().current == Some((r.last + 1) as u64) && r.started().last
            == r.last + 1 && r.started().up == r.up,
        r.stopped().current is None,
        r.stopped().last == r.last,
        r.stopped().up == r.up,
{
}

/// The relay listens on this machine alone, on its own port.
pub proof fn law_address()
    ensures
        editor_addr() == seq!['1', '2', '7', '.', '0', '.', '0', '.', '1', ':'] + decimal(6140),
{
    reveal_strlit("127.0.0.1:");
    assert("127.0.0.1:"@ == seq!['1', '2', '7', '.', '0', '.', '0', '.', '1', ':']);
}

} // verus!
