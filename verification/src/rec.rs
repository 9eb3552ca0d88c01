//! The live state of a recording. It follows what sclang prints, not the buttons:
//!
//! ```text
//! HUB REC: recording 18 stems -> /path
//! HUB REC: stopped -> /path
//! ```

use vstd::prelude::*;

use crate::labels::{REC_FALLBACK_SESSION, REC_STARTING_ELAPSED};
use crate::lates::ascii_alphanumeric;
use crate::recordings::{clock, fmt_duration};
use crate::text::{
    after_last, behind_last, chars_of, contains, has_text, law_behind_none, law_found_only_where_it_stands,
    law_found_where_it_stands, law_strip, strip_space, text_of, trim, CharClass,
};

verus! {

/// Whether a recording runs, and the seconds that the ticker has counted, where one
/// counts.
#[derive(Clone, Copy, Debug, PartialEq, Eq, Structural)]
pub struct Recording {
    pub active: bool,
    pub ticker: Option<u64>,
}

/// What the panel is to show after a line.
pub struct RecUpdate {
    pub active: bool,
    pub elapsed: &'static str,
    /// The target directory; none leaves the one shown.
    pub path: Option<String>,
    /// A ticker has to be started: none counts yet.
    pub start_ticker: bool,
}

pub open spec fn announces_start(line: Seq<char>) -> bool {
    contains(line, "HUB REC: recording"@)
}

/// A line that announces a start announces no stop.
pub open spec fn announces_stop(line: Seq<char>) -> bool {
    !announces_start(line) && contains(line, "HUB REC: stopped"@)
}

/// The directory that a line names: what stands behind its last arrow, or all of it.
pub open spec fn named_path(line: Seq<char>) -> Seq<char> {
    trim(after_last(line, "-> "@))
}

/// The recording after a line of sclang's.
pub open spec fn rec_after(r: Recording, line: Seq<char>) -> Recording {
    if announces_start(line) {
        Recording {
            active: true,
            ticker: if r.ticker is None {
                Some(0)
            } else {
                r.ticker
            },
        }
    } else if announces_stop(line) {
        Recording { active: false, ticker: r.ticker }
    } else {
        r
    }
}

/// What the panel is to show after a line of sclang's.
pub open spec fn update_shows(r: Recording, line: Seq<char>, u: Option<RecUpdate>) -> bool {
    match u {
        None => !announces_start(line) && !announces_stop(line),
        Some(u) => {
            &&& u.elapsed@ == REC_STARTING_ELAPSED@
            &&& if announces_start(line) {
                &&& u.active
                &&& u.start_ticker == (r.ticker is None)
                &&& match u.path {
                    Some(p) => p@ == named_path(line) && p@.len() > 0,
                    None => named_path(line).len() == 0,
                }
            } else {
                &&& announces_stop(line)
                &&& !u.active
                &&& !u.start_ticker
                &&& u.path is None
            }
        },
    }
}

impl Recording {
    pub fn new() -> (r: Recording)
        ensures
            r == (Recording { active: false, ticker: None::<u64> }),
    {
        Recording { active: false, ticker: None }
    }

    /// Follows a line of sclang's.
    pub fn handle_rec_line(&mut self, line: &str) -> (u: Option<RecUpdate>)
        ensures
            *final(self) == rec_after(*old(self), line@),
            update_shows(*old(self), line@, u),
    {
        let chars = chars_of(line);
        if has_text(chars.as_slice(), chars_of("HUB REC: recording").as_slice()) {
            let start_ticker = self.ticker.is_none();
            self.active = true;
            if start_ticker {
                self.ticker = Some(0);
            }
            let path = strip_space(behind_last(chars.as_slice(), chars_of("-> ").as_slice()));
            let path = if path.len() == 0 {
                None
            } else {
                Some(text_of(path))
            };
            Some(RecUpdate { active: true, elapsed: REC_STARTING_ELAPSED, path, start_ticker })
        } else if has_text(chars.as_slice(), chars_of("HUB REC: stopped").as_slice()) {
            self.active = false;
            Some(
                RecUpdate {
                    active: false,
                    elapsed: REC_STARTING_ELAPSED,
                    path: None,
                    start_ticker: false,
                },
            )
        } else {
            None
        }
    }

    /// A second of the ticker. It gives the elapsed time to show, or ends the ticker
    /// where no recording runs any more.
    pub fn tick(&mut self) -> (elapsed: Option<String>)
        requires
            old(self).ticker is Some,
            old(self).active ==> old(self).ticker->0 < u64::MAX,
        ensures
            final(self).active == old(self).active,
            match elapsed {
                Some(t) => old(self).active && t@ == clock((old(self).ticker->0 + 1) as nat)
                    && final(self).ticker == Some((old(self).ticker->0 + 1) as u64),
                None => !old(self).active && final(self).ticker is None,
            },
    {
        if !self.active {
            self.ticker = None;
            return None;
        }
        match self.ticker {
            Some(secs) => {
                let secs: u64 = secs + 1;
                self.ticker = Some(secs);
                Some(fmt_duration(secs))
            },
            None => None,
        }
    }
}

// ---- the session's name -----------------------------------------------------------

/// Safe both in a string literal of sclang's and in a path.
pub open spec fn safe_char(c: char) -> bool {
    ascii_alphanumeric(c) || c == '-' || c == '_'
}

/// The safe characters of a name, in their order.
pub open spec fn safe_part(name: Seq<char>) -> Seq<char> {
    name.filter(|c: char| safe_char(c))
}

/// The session's name: what is safe of the one entered, or the fallback.
pub open spec fn session_label(name: Seq<char>) -> Seq<char> {
    if safe_part(name).len() == 0 {
        REC_FALLBACK_SESSION@
    } else {
        safe_part(name)
    }
}

pub fn rec_label(name: &str) -> (r: String)
    ensures
        r@ == session_label(name@),
{
    let chars = chars_of(name);
    let mut out = String::new();
    let mut kept: usize = 0;
    let mut i: usize = 0;
    proof {
        reveal(Seq::filter);
        assert(chars@.take(0) == Seq::<char>::empty());
    }
    while i < chars.len()
        invariant
            i <= chars@.len(),
            kept <= i,
            kept == out@.len(),
            out@ == safe_part(chars@.take(i as int)),
        decreases chars@.len() - i,
    {
        let c = chars[i];
        proof {
            reveal(Seq::filter);
            assert(chars@.take(i + 1).drop_last() == chars@.take(i as int));
        }
        if ('a' <= c && c <= 'z') || ('A' <= c && c <= 'Z') || ('0' <= c && c <= '9') || c == '-'
            || c == '_' {
            out.push(c);
            kept += 1;
        }
        i += 1;
    }
    assert(chars@.take(i as int) == chars@);
    if kept == 0 {
        REC_FALLBACK_SESSION.to_owned()
    } else {
        out
    }
}

/// The line that starts a recording under a name.
pub fn rec_start_code(name: &str) -> (r: String)
    ensures
        r@ == "~hubRecStart.value(\""@ + session_label(name@) + "\");"@,
{
    let mut code = "~hubRecStart.value(\"".to_owned();
    code.append(rec_label(name).as_str());
    code.append("\");");
    code
}

/// The line that ends a recording.
pub const REC_STOP_CODE: &'static str = "~hubRecStop.value;";

// ---- laws -------------------------------------------------------------------------

/// A session's name is never empty and holds only safe characters.
pub proof fn law_label_is_safe(name: Seq<char>)
    ensures
        session_label(name).len() > 0,
        forall|i: int|
            0 <= i < session_label(name).len() ==> safe_char(#[trigger] session_label(name)[i]),
{
    reveal_strlit("session");
    let pred = |c: char| safe_char(c);
    if safe_part(name).len() > 0 {
        assert forall|i: int| 0 <= i < session_label(name).len() implies safe_char(
            #[trigger] session_label(name)[i],
        ) by {
            name.lemma_filter_pred(pred, i);
        }
    }
}

/// A name that is safe and not empty is kept as it is.
pub proof fn law_safe_label_is_kept(name: Seq<char>)
    requires
        name.len() > 0,
        forall|i: int| 0 <= i < name.len() ==> safe_char(#[trigger] name[i]),
    ensures
        session_label(name) == name,
{
    lemma_safe_part_of_safe(name);
}

proof fn lemma_safe_part_of_safe(name: Seq<char>)
    requires
        forall|i: int| 0 <= i < name.len() ==> safe_char(#[trigger] name[i]),
    ensures
        safe_part(name) == name,
    decreases name.len(),
{
    reveal(Seq::filter);
    if name.len() > 0 {
        lemma_safe_part_of_safe(name.drop_last());
        assert(name.drop_last().push(name.last()) == name);
    }
}

/// The buttons alone never start or end a recording: a line without either announcement
/// changes nothing.
pub proof fn law_only_announcements_count(r: Recording, line: Seq<char>)
    requires
        !contains(line, "HUB REC: recording"@),
        !contains(line, "HUB REC: stopped"@),
    ensures
        rec_after(r, line) == r,
{
}

/// The recording after lines of sclang's, in their order.
pub open spec fn rec_after_all(r: Recording, ls: Seq<Seq<char>>) -> Recording
    decreases ls.len(),
{
    if ls.len() == 0 {
        r
    } else {
        rec_after(rec_after_all(r, ls.drop_last()), ls.last())
    }
}

/// The last announcement decides: a recording runs where it was one of a start, whatever
/// was printed before it and whatever else was printed since.
pub proof fn law_last_announcement_decides(r: Recording, ls: Seq<Seq<char>>, i: int)
    requires
        0 <= i < ls.len(),
        announces_start(ls[i]) || announces_stop(ls[i]),
        forall|k: int|
            i < k < ls.len() ==> !announces_start(#[trigger] ls[k]) && !announces_stop(ls[k]),
    ensures
        rec_after_all(r, ls).active == announces_start(ls[i]),
    decreases ls.len(),
{
    if i < ls.len() - 1 {
        assert(!announces_start(ls[ls.len() - 1]));
        let head = ls.drop_last();
        assert forall|k: int| i < k < head.len() implies !announces_start(#[trigger] head[k])
            && !announces_stop(head[k]) by {
            assert(!announces_start(ls[k]));
        }
        law_last_announcement_decides(r, head, i);
    }
}

/// One ticker counts at a time: a start announced while one counts leaves it as it is.
pub proof fn law_one_ticker(r: Recording, line: Seq<char>, u: Option<RecUpdate>)
    requires
        r.ticker is Some,
        update_shows(r, line, u),
    ensures
        rec_after(r, line).ticker == r.ticker,
        u matches Some(u) ==> !u.start_ticker,
{
}

/// The path behind the last arrow is the one shown, whatever stands before the arrow.
pub proof fn law_announced_path(head: Seq<char>, path: Seq<char>)
    requires
        !contains(path, "-> "@),
    ensures
        named_path(head + "-> "@ + path) == trim(path),
{
    reveal_strlit("-> ");
    let arrow = "-> "@;
    let line = head + arrow + path;
    let at = head.len() as int;
    assert(line.subrange(at, at + 3) == arrow);
    assert(crate::text::match_at(line, arrow, at));
    lemma_last_arrow(head, path, line.len() - arrow.len());
    assert(line.skip(at + 3) == path);
}

proof fn lemma_last_arrow(head: Seq<char>, path: Seq<char>, i: int)
    requires
        !contains(path, "-> "@),
        head.len() <= i,
    ensures
        crate::text::last_match(head + "-> "@ + path, "-> "@, i) == head.len(),
    decreases i,
{
    reveal_strlit("-> ");
    let arrow = "-> "@;
    let line = head + arrow + path;
    let at = head.len() as int;
    if i == at {
        assert(line.subrange(at, at + 3) == arrow);
    } else {
        if crate::text::match_at(line, arrow, i) {
            assert(line.subrange(i, i + 3)[0] == '-');
            assert(line[i] == '-');
            if i >= at + 3 {
                assert(path.subrange(i - at - 3, i - at) == line.subrange(i, i + 3));
                assert(crate::text::match_at(path, arrow, i - at - 3));
            }
            assert(false);
        }
        lemma_last_arrow(head, path, i - 1);
    }
}

/// A start is announced wherever in a line its words stand, and a stop wherever its own
/// stand, unless the line announces a start; and nothing else is announced.
pub proof fn law_announcements(a: Seq<char>, b: Seq<char>, line: Seq<char>)
    ensures
        announces_start(a + "HUB REC: recording"@ + b),
        announces_stop(a + "HUB REC: stopped"@ + b) || announces_start(
            a + "HUB REC: stopped"@ + b,
        ),
        announces_start(line) ==> exists|p: Seq<char>, q: Seq<char>|
            line == #[trigger] (p + "HUB REC: recording"@ + q),
        announces_stop(line) ==> !announces_start(line) && exists|p: Seq<char>, q: Seq<char>|
            line == #[trigger] (p + "HUB REC: stopped"@ + q),
{
    law_found_where_it_stands(a, "HUB REC: recording"@, b);
    law_found_where_it_stands(a, "HUB REC: stopped"@, b);
    if announces_start(line) {
        law_found_only_where_it_stands(line, "HUB REC: recording"@);
    }
    if announces_stop(line) {
        law_found_only_where_it_stands(line, "HUB REC: stopped"@);
    }
}

/// The recording follows the announcements: after that of a start it runs, and a ticker
/// counts, from nothing where none counted before; after that of a stop it does not run, and
/// the ticker is left to end by itself.
pub proof fn law_recording_follows(r: Recording, line: Seq<char>)
    ensures
        announces_start(line) ==> rec_after(r, line).active,
        announces_start(line) && r.ticker is None ==> rec_after(r, line).ticker == Some(0u64),
        announces_start(line) && r.ticker is Some ==> rec_after(r, line).ticker == r.ticker,
        announces_stop(line) ==> rec_after(r, line) == (Recording { active: false, ..r }),
        !announces_start(line) && !announces_stop(line) ==> rec_after(r, line) == r,
{
}

/// The panel shows each announcement, and nothing else: a start with its clock at zero and a
/// ticker where none counts, a stop with its clock at zero and without a path.
pub proof fn law_announcements_are_shown(r: Recording, line: Seq<char>, u: Option<RecUpdate>)
    requires
        update_shows(r, line, u),
    ensures
        u is Some <==> announces_start(line) || announces_stop(line),
        u matches Some(s) ==> s.active == announces_start(line) && s.elapsed@ == "00:00:00"@,
        u matches Some(s) ==> (s.start_ticker <==> announces_start(line) && r.ticker is None),
        u matches Some(s) ==> announces_stop(line) ==> s.path is None,
{
}

/// The path behind the last arrow of a start is shown whole, without the white space around
/// it.
pub proof fn law_path_is_shown(
    r: Recording,
    a: Seq<char>,
    b: Seq<char>,
    before: Seq<char>,
    path: Seq<char>,
    behind: Seq<char>,
    u: Option<RecUpdate>,
)
    requires
        update_shows(
            r,
            a + "HUB REC: recording"@ + b + "-> "@ + (before + path + behind),
            u,
        ),
        forall|i: int| 0 <= i < before.len() ==> CharClass::WhiteSpace.has(#[trigger] before[i]),
        forall|i: int| 0 <= i < behind.len() ==> CharClass::WhiteSpace.has(#[trigger] behind[i]),
        path.len() > 0 ==> !CharClass::WhiteSpace.has(path[0]) && !CharClass::WhiteSpace.has(
            path.last(),
        ),
        !contains(before + path + behind, "-> "@),
    ensures
        u is Some,
        path.len() > 0 ==> (u->0).path is Some && ((u->0).path->0)@ == path,
        path.len() == 0 ==> (u->0).path is None,
{
    let head = a + "HUB REC: recording"@ + b;
    let shown = before + path + behind;
    let line = head + "-> "@ + shown;
    law_announced_path(head, shown);
    law_strip(before, path, behind, CharClass::WhiteSpace);
    let rest = b + "-> "@ + shown;
    assert(line == a + "HUB REC: recording"@ + rest);
    law_found_where_it_stands(a, "HUB REC: recording"@, rest);
}

/// Of a name each safe character is kept, in its place among the others, and each other one
/// is dropped; and only a name without a safe character gives the fallback.
pub proof fn law_safe_characters_are_kept(name: Seq<char>, c: char)
    ensures
        safe_char(c) <==> 'a' <= c <= 'z' || 'A' <= c <= 'Z' || '0' <= c <= '9' || c == '-' || c
            == '_',
        safe_char(c) ==> safe_part(name.push(c)) == safe_part(name).push(c),
        !safe_char(c) ==> safe_part(name.push(c)) == safe_part(name),
        safe_part(Seq::empty()) == Seq::<char>::empty(),
        safe_part(name).len() > 0 ==> session_label(name) == safe_part(name),
        safe_part(name).len() == 0 ==> session_label(name) == "session"@,
{
    reveal(Seq::filter);
    assert(name.push(c).drop_last() == name);
}

/// A line without an arrow is taken for its path as a whole, without the white space around
/// it.
pub proof fn law_line_without_arrow(line: Seq<char>)
    requires
        !contains(line, "-> "@),
    ensures
        named_path(line) == trim(line),
{
    law_behind_none(line, "-> "@);
}

} // verus!
