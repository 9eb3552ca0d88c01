//! What the panel's lists, buttons and rows decide.

use std::path::PathBuf;

use vstd::prelude::*;

use crate::config::{MUTE_GROUP_SLUGS, ORBITS_PER_GROUP};
use crate::labels::MUTE_GROUP_NAMES;
use crate::number::{decimal, decimal_text, push_decimal};
use crate::recordings::Session;
use crate::supervise::{joined2, tag, tagged};

verus! {

// ---- buttons ----------------------------------------------------------------------

/// The lights of a button.
#[derive(Clone, Copy, Debug, PartialEq, Eq, Structural)]
pub struct Button {
    /// What it started is under way.
    pub working: bool,
    /// What it started is done. The light stays until the next press.
    pub done: bool,
}

/// One light of a button is set.
#[derive(Clone, Copy, Debug, PartialEq, Eq, Structural)]
pub enum Setter {
    Working(bool),
    Done(bool),
}

/// What a press sets, in this order: the light of the press before goes out first.
pub open spec fn press_setters() -> Seq<Setter> {
    seq![Setter::Done(false), Setter::Working(true)]
}

/// What the end of the work sets, in this order.
pub open spec fn finish_setters() -> Seq<Setter> {
    seq![Setter::Working(false), Setter::Done(true)]
}

impl Button {
    pub open spec fn after(self, setter: Setter) -> Button {
        match setter {
            Setter::Working(on) => Button { working: on, ..self },
            Setter::Done(on) => Button { done: on, ..self },
        }
    }

    pub open spec fn after_all(self, setters: Seq<Setter>) -> Button
        decreases setters.len(),
    {
        if setters.len() == 0 {
            self
        } else {
            self.after_all(setters.drop_last()).after(setters.last())
        }
    }

    pub fn new() -> (r: Button)
        ensures
            !r.working,
            !r.done,
    {
        Button { working: false, done: false }
    }

    /// Sets the lights one by one.
    fn set_all(&mut self, setters: &Vec<Setter>)
        ensures
            *final(self) == old(self).after_all(setters@),
    {
        let mut i: usize = 0;
        assert(setters@.take(0) == Seq::<Setter>::empty());
        while i < setters.len()
            invariant
                i <= setters@.len(),
                *self == old(self).after_all(setters@.take(i as int)),
            decreases setters@.len() - i,
        {
            assert(setters@.take(i + 1).drop_last() == setters@.take(i as int));
            match setters[i] {
                Setter::Working(on) => self.working = on,
                Setter::Done(on) => self.done = on,
            }
            i += 1;
        }
        assert(setters@.take(i as int) == setters@);
    }

    /// A press: what is set on the window, in its order. On a window that is gone nothing
    /// is set.
    pub fn press(&mut self, window: bool) -> (setters: Vec<Setter>)
        ensures
            setters@ == if window {
                press_setters()
            } else {
                Seq::empty()
            },
            *final(self) == old(self).after_all(setters@),
            window ==> *final(self) == (Button { working: true, done: false }),
    {
        let mut setters: Vec<Setter> = Vec::new();
        if window {
            setters.push(Setter::Done(false));
            setters.push(Setter::Working(true));
        }
        self.set_all(&setters);
        proof {
            assert(window ==> setters@ == press_setters());
            lemma_two_setters(*old(self), Setter::Done(false), Setter::Working(true));
        }
        setters
    }

    /// The end of the work: what is set on the window, in its order. On a window that is
    /// gone nothing is set.
    pub fn finish(&mut self, window: bool) -> (setters: Vec<Setter>)
        ensures
            setters@ == if window {
                finish_setters()
            } else {
                Seq::empty()
            },
            *final(self) == old(self).after_all(setters@),
            window ==> *final(self) == (Button { working: false, done: true }),
    {
        let mut setters: Vec<Setter> = Vec::new();
        if window {
            setters.push(Setter::Working(false));
            setters.push(Setter::Done(true));
        }
        self.set_all(&setters);
        proof {
            assert(window ==> setters@ == finish_setters());
            lemma_two_setters(*old(self), Setter::Working(false), Setter::Done(true));
        }
        setters
    }
}

proof fn lemma_two_setters(button: Button, first: Setter, second: Setter)
    ensures
        button.after_all(seq![first, second]) == button.after(first).after(second),
{
    reveal_with_fuel(Button::after_all, 3);
    assert(seq![first, second].drop_last() == seq![first]);
    assert(seq![first].drop_last() == Seq::<Setter>::empty());
}

// ---- rows -------------------------------------------------------------------------

/// The row that a number of the panel's means, in a list of so many rows.
pub fn row_index(row: i32, rows: usize) -> (r: Option<usize>)
    ensures
        match r {
            Some(i) => i == row && i < rows,
            None => row < 0 || row >= rows,
        },
{
    if row >= 0 && (row as usize) < rows {
        Some(row as usize)
    } else {
        None
    }
}

/// The machine word that a number of the panel's turns into.
pub open spec fn as_word(n: int) -> int {
    if n >= 0 {
        n
    } else {
        usize::MAX + 1 + n
    }
}

/// The song that a number of the panel's means: the songs repeat without end.
pub fn song_index(row: i32, songs: usize) -> (r: Option<usize>)
    ensures
        match r {
            Some(i) => songs > 0 && i == as_word(row as int) % (songs as int),
            None => songs == 0,
        },
{
    let word: usize = if row >= 0 {
        row as usize
    } else {
        usize::MAX - ((-(row + 1)) as usize)
    };
    if songs == 0 {
        None
    } else {
        Some(word % songs)
    }
}

/// The title of a song's timeline. `secs` is its length in whole seconds, as text.
pub fn song_title(folder: &str, is_empty: bool, song: &str, tracks: usize, secs: &str) -> (r:
    String)
    ensures
        r@ == if is_empty {
            folder@ + ": no .sections.json yet (run the bench)"@
        } else {
            song@ + " · "@ + decimal(tracks as nat) + " tracks · "@ + secs@ + "s"@
        },
{
    if is_empty {
        joined2(folder, ": no .sections.json yet (run the bench)")
    } else {
        let mut out = song.to_owned();
        out.append(" · ");
        push_decimal(&mut out, tracks as u64);
        out.append(" tracks · ");
        out.append(secs);
        out.append("s");
        out
    }
}

/// What is logged of a song that was applied.
pub fn song_log(folder: &str, tracks: usize, secs: &str) -> (r: String)
    ensures
        r@ == tagged(
            "song"@,
            folder@ + ": "@ + decimal(tracks as nat) + " tracks, "@ + secs@ + "s"@,
        ),
{
    let mut out = folder.to_owned();
    out.append(": ");
    push_decimal(&mut out, tracks as u64);
    out.append(" tracks, ");
    out.append(secs);
    out.append("s");
    tag("song", out.as_str())
}

/// What is logged of a reconnect of a MIDI device.
pub fn midi_reconnect_log(name: &str, id: &str) -> (r: String)
    ensures
        r@ == tagged("midi"@, "reconnect "@ + name@ + " ("@ + id@ + "): not wired yet"@),
{
    let mut out = "reconnect ".to_owned();
    out.append(name);
    out.append(" (");
    out.append(id);
    out.append("): not wired yet");
    tag("midi", out.as_str())
}

/// What is logged when a server is ended by the panic button.
pub fn panic_log(name: &str, port: &str) -> (r: String)
    ensures
        r@ == tagged(name@, "panic triggered: ending port "@ + port@),
{
    tag(name, joined2("panic triggered: ending port ", port).as_str())
}

// ---- sessions ---------------------------------------------------------------------

/// A row of the list of sessions.
pub struct SessionRow {
    pub name: String,
    pub info: String,
}

/// The rows of the list of sessions, and where each session lies.
pub struct SessionList {
    pub rows: Vec<SessionRow>,
    pub paths: Vec<PathBuf>,
}

pub open spec fn row_shows(row: SessionRow, session: Session) -> bool {
    row.name@ == session.name@ && row.info@ == decimal(session.stems as nat) + " stems"@
}

pub fn session_rows(sessions: &Vec<Session>) -> (r: SessionList)
    ensures
        r.rows@.len() == sessions@.len(),
        r.paths@.len() == sessions@.len(),
        forall|i: int|
            0 <= i < sessions@.len() ==> row_shows(#[trigger] r.rows@[i], sessions@[i]),
        forall|i: int| 0 <= i < sessions@.len() ==> #[trigger] r.paths@[i] == sessions@[i].path,
        forall|i: int|
            0 <= i < sessions@.len() ==> (#[trigger] r.rows@[i]).name@ == sessions@[i].name@
                && r.rows@[i].info@ == decimal(sessions@[i].stems as nat) + " stems"@,
{
    let mut rows: Vec<SessionRow> = Vec::new();
    let mut paths: Vec<PathBuf> = Vec::new();
    let mut i: usize = 0;
    while i < sessions.len()
        invariant
            i <= sessions@.len(),
            rows@.len() == i,
            paths@.len() == i,
            forall|k: int| 0 <= k < i ==> row_shows(#[trigger] rows@[k], sessions@[k]),
            forall|k: int| 0 <= k < i ==> #[trigger] paths@[k] == sessions@[k].path,
        decreases sessions@.len() - i,
    {
        let session = &sessions[i];
        let mut info = decimal_text(session.stems as u64);
        info.append(" stems");
        rows.push(SessionRow { name: session.name.clone(), info });
        paths.push(session.path.clone());
        i += 1;
    }
    SessionList { rows, paths }
}

/// The folder that is to be opened: the selected session's, or the one of all sessions
/// where none is selected.
pub fn selected_folder(selected: i32, paths: &Vec<PathBuf>, all: PathBuf) -> (r: PathBuf)
    ensures
        r == if 0 <= selected < paths@.len() {
            paths@[selected as int]
        } else {
            all
        },
{
    match row_index(selected, paths.len()) {
        Some(i) => paths[i].clone(),
        None => all,
    }
}

/// What to do about a folder that is to be opened.
pub struct OpenStep {
    pub log: String,
    pub open: bool,
}

pub fn open_folder(dir: &str, is_dir: bool) -> (step: OpenStep)
    ensures
        step.open == is_dir,
        step.log@ == tagged(
            "rec"@,
            if is_dir {
                "opening "@ + dir@
            } else {
                "nothing to open yet: "@ + dir@
            },
        ),
{
    let message = if is_dir {
        joined2("opening ", dir)
    } else {
        joined2("nothing to open yet: ", dir)
    };
    OpenStep { log: tag("rec", message.as_str()), open: is_dir }
}

// ---- mutes ------------------------------------------------------------------------

/// An orbit in the mute grid.
#[derive(Debug)]
pub struct MuteItem {
    pub label: String,
    pub muted: bool,
}

/// A group of orbits in the mute grid.
#[derive(Debug)]
pub struct MuteGroup {
    pub name: &'static str,
    pub items: Vec<MuteItem>,
}

/// The group is that of row `g`, with its orbits counted from 1 and none of them muted.
pub open spec fn fresh_group(group: MuteGroup, g: int) -> bool {
    &&& group.name@ == MUTE_GROUP_NAMES@[g]@
    &&& group.items@.len() == ORBITS_PER_GROUP
    &&& forall|i: int|
        0 <= i < group.items@.len() ==> (#[trigger] group.items@[i]).label@ == seq![
            MUTE_GROUP_SLUGS@[g],
        ] + decimal((i + 1) as nat) && !group.items@[i].muted
}

/// The mute grid: a group per letter.
pub fn mute_model() -> (r: Vec<MuteGroup>)
    ensures
        r@.len() == MUTE_GROUP_SLUGS@.len(),
        forall|g: int| 0 <= g < r@.len() ==> fresh_group(#[trigger] r@[g], g),
{
    let slugs = MUTE_GROUP_SLUGS;
    let names = MUTE_GROUP_NAMES;
    let mut groups: Vec<MuteGroup> = Vec::new();
    let mut g: usize = 0;
    while g < 3
        invariant
            g <= 3,
            slugs@ == MUTE_GROUP_SLUGS@,
            names@ == MUTE_GROUP_NAMES@,
            groups@.len() == g,
            forall|k: int| 0 <= k < g ==> fresh_group(#[trigger] groups@[k], k),
        decreases 3 - g,
    {
        let mut items: Vec<MuteItem> = Vec::new();
        let mut i: usize = 1;
        while i <= ORBITS_PER_GROUP
            invariant
                1 <= i <= ORBITS_PER_GROUP + 1,
                g < 3,
                slugs@ == MUTE_GROUP_SLUGS@,
                items@.len() == i - 1,
                forall|k: int|
                    0 <= k < items@.len() ==> (#[trigger] items@[k]).label@ == seq![
                        MUTE_GROUP_SLUGS@[g as int],
                    ] + decimal((k + 1) as nat) && !items@[k].muted,
            decreases ORBITS_PER_GROUP + 1 - i,
        {
            let mut label = String::new();
            label.push(slugs[g]);
            assert(label@ == seq![MUTE_GROUP_SLUGS@[g as int]]);
            push_decimal(&mut label, i as u64);
            items.push(MuteItem { label, muted: false });
            i += 1;
        }
        groups.push(MuteGroup { name: names[g], items });
        g += 1;
    }
    groups
}

/// `b` is `a` with one orbit's mute the other way, and everything else the same.
pub open spec fn toggles(a: Seq<MuteGroup>, b: Seq<MuteGroup>, g: int, i: int) -> bool {
    &&& b.len() == a.len()
    &&& forall|k: int|
        0 <= k < a.len() ==> (#[trigger] b[k]).name == a[k].name && b[k].items@.len()
            == a[k].items@.len()
    &&& forall|k: int, n: int|
        0 <= k < a.len() && 0 <= n < a[k].items@.len() ==> (#[trigger] b[k].items@[n]).label
            == a[k].items@[n].label && b[k].items@[n].muted == (a[k].items@[n].muted != (k == g && n
            == i))
}

/// The orbit is in the grid.
pub open spec fn in_grid(a: Seq<MuteGroup>, g: int, i: int) -> bool {
    0 <= g < a.len() && 0 <= i < a[g].items@.len()
}

/// What is logged of an orbit's mute.
pub open spec fn mute_text(item: MuteItem) -> Seq<char> {
    let muted = if item.muted {
        "true"@
    } else {
        "false"@
    };
    tagged("mutes"@, item.label@ + " muted="@ + muted + " (not wired yet)"@)
}

/// Turns an orbit's mute the other way. Nothing happens to one that is not in the grid.
pub fn orbit_mute(groups: &mut Vec<MuteGroup>, g: i32, i: i32) -> (log: Option<String>)
    ensures
        match log {
            Some(m) => in_grid(old(groups)@, g as int, i as int) && toggles(
                old(groups)@,
                final(groups)@,
                g as int,
                i as int,
            ) && m@ == mute_text(final(groups)@[g as int].items@[i as int]),
            None => !in_grid(old(groups)@, g as int, i as int) && final(groups)@ == old(groups)@,
        },
        log is Some <==> 0 <= g < old(groups)@.len() && 0 <= i < old(groups)@[g as int].items@.len(),
        log is Some ==> {
            let (a, b) = (old(groups)@, final(groups)@);
            let item = b[g as int].items@[i as int];
            &&& item.muted == !a[g as int].items@[i as int].muted
            &&& item.label@ == a[g as int].items@[i as int].label@
            &&& item.muted ==> (log->0)@ == tagged(
                "mutes"@,
                item.label@ + " muted="@ + "true"@ + " (not wired yet)"@,
            )
            &&& !item.muted ==> (log->0)@ == tagged(
                "mutes"@,
                item.label@ + " muted="@ + "false"@ + " (not wired yet)"@,
            )
        },
{
    let g = match row_index(g, groups.len()) {
        Some(g) => g,
        None => return None,
    };
    let i = match row_index(i, groups[g].items.len()) {
        Some(i) => i,
        None => return None,
    };
    groups[g].items[i].muted = !groups[g].items[i].muted;
    let mut out = groups[g].items[i].label.clone();
    out.append(" muted=");
    out.append(
        if groups[g].items[i].muted {
            "true"
        } else {
            "false"
        },
    );
    out.append(" (not wired yet)");
    Some(tag("mutes", out.as_str()))
}

// ---- laws -------------------------------------------------------------------------

/// A press and the end of its work set the lights in this order: the sticky light of the
/// press before goes out, the working light goes on, then off again, and the sticky light
/// goes on. Whatever the button showed before, the two lights are never on together from
/// the first of these on, and the sticky light alone is on in the end.
pub proof fn law_press_then_finish(button: Button, n: int)
    requires
        1 <= n <= 4,
    ensures
        press_setters() + finish_setters() == seq![
            Setter::Done(false),
            Setter::Working(true),
            Setter::Working(false),
            Setter::Done(true),
        ],
        ({
            let shown = button.after_all((press_setters() + finish_setters()).take(n));
            !(shown.working && shown.done)
        }),
        button.after_all(press_setters() + finish_setters()) == (Button {
            working: false,
            done: true,
        }),
{
    reveal_with_fuel(Button::after_all, 5);
    let all = press_setters() + finish_setters();
    assert(all == seq![
        Setter::Done(false),
        Setter::Working(true),
        Setter::Working(false),
        Setter::Done(true),
    ]);
    assert(all.take(4) == all);
    assert(all.take(4).drop_last() == all.take(3));
    assert(all.take(3).drop_last() == all.take(2));
    assert(all.take(2).drop_last() == all.take(1));
    assert(all.take(1).drop_last() == Seq::<Setter>::empty());
}

/// The same grid with the same mutes.
pub open spec fn same_mutes(a: Seq<MuteGroup>, b: Seq<MuteGroup>) -> bool {
    &&& b.len() == a.len()
    &&& forall|k: int|
        0 <= k < a.len() ==> (#[trigger] b[k]).name == a[k].name && b[k].items@.len()
            == a[k].items@.len()
    &&& forall|k: int, n: int|
        0 <= k < a.len() && 0 <= n < a[k].items@.len() ==> #[trigger] b[k].items@[n]
            == a[k].items@[n]
}

/// Turning a mute twice leaves the grid as it was.
pub proof fn law_mute_twice(
    a: Seq<MuteGroup>,
    b: Seq<MuteGroup>,
    c: Seq<MuteGroup>,
    g: int,
    i: int,
)
    requires
        toggles(a, b, g, i),
        toggles(b, c, g, i),
    ensures
        same_mutes(a, c),
{
    assert forall|k: int| 0 <= k < a.len() implies (#[trigger] c[k]).name == a[k].name
        && c[k].items@.len() == a[k].items@.len() by {
        assert(b[k].name == a[k].name);
    }
    assert forall|k: int, n: int|
        0 <= k < a.len() && 0 <= n < a[k].items@.len() implies #[trigger] c[k].items@[n]
        == a[k].items@[n] by {
        assert(b[k].items@.len() == a[k].items@.len()) by {
            assert(b[k].name == a[k].name);
        }
        assert(b[k].items@[n].label == a[k].items@[n].label);
        assert(c[k].items@[n].label == b[k].items@[n].label);
    }
}

/// No two orbits of the grid have the same label.
pub proof fn law_orbit_labels_distinct(g: int, i: nat, h: int, j: nat)
    requires
        0 <= g < MUTE_GROUP_SLUGS@.len(),
        0 <= h < MUTE_GROUP_SLUGS@.len(),
        seq![MUTE_GROUP_SLUGS@[g]] + decimal(i) == seq![MUTE_GROUP_SLUGS@[h]] + decimal(j),
    ensures
        g == h,
        i == j,
{
    let a = seq![MUTE_GROUP_SLUGS@[g]] + decimal(i);
    let b = seq![MUTE_GROUP_SLUGS@[h]] + decimal(j);
    assert(a[0] == b[0]);
    assert(a.skip(1) == decimal(i));
    assert(b.skip(1) == decimal(j));
    crate::number::law_decimal_injective(i, j);
}

/// Turning one orbit's mute leaves every other orbit as it was, in its own group and in the
/// others, and no group or orbit comes or goes.
pub proof fn law_other_orbits_stay(
    a: Seq<MuteGroup>,
    b: Seq<MuteGroup>,
    g: int,
    i: int,
    k: int,
    n: int,
)
    requires
        toggles(a, b, g, i),
        0 <= k < a.len(),
        0 <= n < a[k].items@.len(),
    ensures
        b.len() == a.len(),
        b[k].name == a[k].name,
        b[k].items@.len() == a[k].items@.len(),
        b[k].items@[n].label == a[k].items@[n].label,
        k == g && n == i ==> b[k].items@[n].muted != a[k].items@[n].muted,
        k != g || n != i ==> b[k].items@[n].muted == a[k].items@[n].muted,
{
    assert(b[k].name == a[k].name);
    assert(b[k].items@[n].label == a[k].items@[n].label);
}

/// A number of the panel's is taken as a machine word: it is itself where it is not negative,
/// and wraps around once where it is.
pub proof fn law_machine_words(n: int)
    requires
        i32::MIN <= n <= i32::MAX,
    ensures
        0 <= as_word(n) <= usize::MAX,
        n >= 0 ==> as_word(n) == n,
        n < 0 ==> as_word(n) == n + usize::MAX + 1,
{
}

/// A fresh group is named as its row is, and its orbits are its letter and their numbers
/// from 1 on, none of them muted.
pub proof fn law_fresh_group(group: MuteGroup, g: int, i: int)
    requires
        fresh_group(group, g),
        0 <= g < 3,
        0 <= i < 6,
    ensures
        group.items@.len() == 6,
        group.name@ == MUTE_GROUP_NAMES@[g]@,
        group.items@[i].label@ == seq![MUTE_GROUP_SLUGS@[g]] + decimal((i + 1) as nat),
        !group.items@[i].muted,
{
    assert(group.items@[i].label@ == seq![MUTE_GROUP_SLUGS@[g]] + decimal((i + 1) as nat));
}

} // verus!
