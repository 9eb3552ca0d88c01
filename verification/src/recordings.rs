//! Past recording sessions. A session is a directory
//! `recordings/<session>_<timestamp>/` that holds one `<stem>.wav` per orbit. Stems are
//! 24-bit stereo at 48 kHz, so a stem's size gives its duration.

use std::path::PathBuf;

use vstd::prelude::*;

use crate::number::{all_digits, decimal, digit, digits_value, push_two_digits, two_digits};
use crate::order::{
    by_name, goes_before, lemma_text_less_total, sort_named, sorted, stable_rearrangement, text_less, NameOrder, Named,
};
use crate::stamp::{
    law_later_stamp_is_newer, law_later_stamp_is_newer_in_a_label, law_one_form_is_read_alike,
    newer, one_form, read_alike, readable, session_name, whole_stamp,
};
use crate::text::{chars_of, match_at, stands_at};

verus! {

/// A path, carried through unread.
#[verifier::external_type_specification]
#[verifier::external_body]
pub struct ExPathBuf(PathBuf);

/// `PathBuf::clone` gives the same path again.
pub assume_specification[ <PathBuf as Clone>::clone ](p: &PathBuf) -> (r: PathBuf)
    ensures
        r == *p,
;

pub const RECORDINGS_DIR: &'static str = "/home/endo/Studio/Hub/recordings";

/// 48000 frames of two samples of three bytes.
pub const BYTES_PER_SECOND: u64 = 48000 * 2 * 3;

/// The size of a stem's WAV header.
pub const WAV_HEADER_BYTES: u64 = 78;

/// A recording session.
#[derive(Debug, Clone)]
pub struct Session {
    pub name: String,
    pub path: PathBuf,
    pub stems: usize,
}

/// One recorded stem, as the panel shows it.
#[derive(Debug, Clone)]
pub struct Stem {
    pub name: String,
    pub size: String,
    pub duration: String,
}

/// An entry of the recordings directory.
pub struct SessionEntry {
    pub name: String,
    pub path: PathBuf,
    /// The entry is known to be a directory.
    pub is_dir: bool,
    /// The names in it; none where it cannot be read.
    pub files: Option<Vec<String>>,
}

/// An entry of a session's directory.
pub struct StemFile {
    pub name: String,
    /// The file's length; 0 where that cannot be told.
    pub bytes: u64,
    /// The length as text.
    pub size: String,
}

impl Named for Session {
    open spec fn key(&self) -> Seq<char> {
        self.name@
    }

    fn key_chars(&self) -> (r: Vec<char>) {
        chars_of(self.name.as_str())
    }
}

impl Named for StemFile {
    open spec fn key(&self) -> Seq<char> {
        self.name@
    }

    fn key_chars(&self) -> (r: Vec<char>) {
        chars_of(self.name.as_str())
    }
}

/// A file name with the extension `wav`: something, then `.wav`.
pub open spec fn wav_name(name: Seq<char>) -> bool {
    name.len() > ".wav"@.len() && match_at(name, ".wav"@, name.len() - ".wav"@.len())
}

pub fn is_wav(name: &str) -> (r: bool)
    ensures
        r == wav_name(name@),
{
    let chars = chars_of(name);
    let ext = chars_of(".wav");
    chars.len() > ext.len() && stands_at(chars.as_slice(), ext.as_slice(), chars.len() - ext.len())
}

/// How many of the names are those of WAV files.
pub open spec fn wav_count(names: Seq<String>) -> nat {
    names.filter(|n: String| wav_name(n@)).len()
}

/// The names that a directory listing gives; none where there is no listing.
pub open spec fn names_in(files: Option<Vec<String>>) -> Seq<String> {
    match files {
        Some(names) => names@,
        None => Seq::empty(),
    }
}

/// Counts the WAV files of a session.
pub fn count_wavs(files: &Option<Vec<String>>) -> (r: usize)
    ensures
        r == wav_count(names_in(*files)),
{
    let ghost pred = |n: String| wav_name(n@);
    match files {
        None => {
            assert(Seq::<String>::empty().filter(pred).len() == 0) by {
                reveal(Seq::filter);
            }
            0
        },
        Some(names) => {
            let mut count: usize = 0;
            let mut i: usize = 0;
            proof {
                reveal(Seq::filter);
                assert(names@.take(0) == Seq::<String>::empty());
            }
            while i < names.len()
                invariant
                    i <= names@.len(),
                    count <= i,
                    pred == (|n: String| wav_name(n@)),
                    count == names@.take(i as int).filter(pred).len(),
                decreases names@.len() - i,
            {
                proof {
                    reveal(Seq::filter);
                    assert(names@.take(i + 1).drop_last() == names@.take(i as int));
                }
                if is_wav(names[i].as_str()) {
                    count += 1;
                }
                i += 1;
            }
            assert(names@.take(i as int) == names@);
            count
        },
    }
}

/// The session that a directory entry stands for.
pub open spec fn session_of(e: SessionEntry) -> Session {
    Session { name: e.name, path: e.path, stems: wav_count(names_in(e.files)) as usize }
}

/// The sessions among the entries of the recordings directory, in their order.
pub open spec fn sessions_in(entries: Seq<SessionEntry>) -> Seq<Session> {
    entries.filter(|e: SessionEntry| e.is_dir).map_values(|e: SessionEntry| session_of(e))
}

/// What a directory listing holds; nothing where there is none.
pub open spec fn entries_in<T>(dir: Option<Vec<T>>) -> Seq<T> {
    match dir {
        Some(entries) => entries@,
        None => Seq::empty(),
    }
}

/// No session stands behind an older one.
pub open spec fn newest_first(list: Seq<Session>) -> bool {
    forall|i: int, j: int|
        0 <= i < j < list.len() ==> !newer((#[trigger] list[j]).name@, (#[trigger] list[i]).name@)
}

/// The sessions, newest first by the timestamps in their names, and behind those the ones
/// without a timestamp, by their names. The module `stamp` says what counts as a timestamp,
/// and which labels cannot be told from it. There are no sessions where the directory cannot
/// be read.
pub fn list_sessions(dir: Option<Vec<SessionEntry>>) -> (r: Vec<Session>)
    ensures
        newest_first(r@),
        stable_rearrangement(sessions_in(entries_in(dir)), r@),
        r@ == by_name(sessions_in(entries_in(dir)), NameOrder::NewestFirst),
{
    let mut sessions: Vec<Session> = Vec::new();
    let ghost all = entries_in(dir);
    let ghost pred = |e: SessionEntry| e.is_dir;
    proof {
        reveal(Seq::filter);
        assert(all.take(0) == Seq::<SessionEntry>::empty());
        assert(sessions@ == sessions_in(all.take(0)));
    }
    if let Some(entries) = dir {
        for e in it: entries
            invariant
                it.seq() == all,
                sessions@ == sessions_in(all.take(it.index())),
        {
            let ghost head = all.take(it.index());
            let ghost next = all.take(it.index() + 1);
            proof {
                reveal(Seq::filter);
                assert(next.drop_last() == head);
                assert(next.last() == e);
            }
            if e.is_dir {
                let stems = count_wavs(&e.files);
                let session = Session { name: e.name, path: e.path, stems };
                assert(session == session_of(e));
                sessions.push(session);
            }
            assert(sessions@ == sessions_in(next));
        }
        assert(all.take(all.len() as int) == all);
    }
    assert(sessions@ == sessions_in(all));
    let sessions = sort_named(sessions, NameOrder::NewestFirst);
    assert forall|i: int, j: int| 0 <= i < j < sessions@.len() implies !newer(
        (#[trigger] sessions@[j]).name@,
        (#[trigger] sessions@[i]).name@,
    ) by {
        assert(!goes_before(sessions@[j].key(), sessions@[i].key(), NameOrder::NewestFirst));
    }
    sessions
}

// ---- stems ----------------------------------------------------------------------

/// Hours, minutes and seconds, each in at least two digits.
pub open spec fn clock(secs: nat) -> Seq<char> {
    two_digits(secs / 3600) + ":"@ + two_digits((secs / 60) % 60) + ":"@ + two_digits(secs % 60)
}

/// A duration as `hh:mm:ss`.
pub fn fmt_duration(secs: u64) -> (r: String)
    ensures
        r@ == clock(secs as nat),
        exists|h: Seq<char>, m: Seq<char>, s: Seq<char>|
            r@ == #[trigger] (h + seq![':'] + m + seq![':'] + s) && all_digits(h) && all_digits(m)
                && all_digits(s) && h.len() >= 2 && m.len() == 2 && s.len() == 2 && digits_value(m)
                < 60 && digits_value(s) < 60 && digits_value(h) * 3600 + digits_value(m) * 60
                + digits_value(s) == secs,
{
    proof {
        law_clock_reads_back(secs as nat);
    }
    let mut out = String::new();
    push_two_digits(&mut out, secs / 3600);
    assert(out@ == two_digits(secs as nat / 3600));
    out.append(":");
    push_two_digits(&mut out, (secs / 60) % 60);
    out.append(":");
    push_two_digits(&mut out, secs % 60);
    out
}

/// The whole seconds of sound in a stem of that many bytes.
pub open spec fn stem_seconds(bytes: nat) -> nat {
    if bytes < WAV_HEADER_BYTES {
        0
    } else {
        (bytes - WAV_HEADER_BYTES) as nat / BYTES_PER_SECOND as nat
    }
}

/// The WAV files among the entries of a session's directory, in their order.
pub open spec fn wav_files(entries: Seq<StemFile>) -> Seq<StemFile> {
    entries.filter(|f: StemFile| wav_name(f.name@))
}

/// `stem` shows the file: its name, its size and how long it plays.
pub open spec fn shows(stem: Stem, file: StemFile) -> bool {
    &&& stem.name@ == file.name@
    &&& stem.size@ == file.size@
    &&& stem.duration@ == clock(stem_seconds(file.bytes as nat))
}

/// The stems of a session, by name. There are none where the directory cannot be read.
pub fn list_stems(dir: Option<Vec<StemFile>>) -> (r: Vec<Stem>)
    ensures
        r@.len() == by_name(wav_files(entries_in(dir)), NameOrder::Alphabetical).len(),
        forall|i: int|
            0 <= i < r@.len() ==> shows(
                #[trigger] r@[i],
                by_name(wav_files(entries_in(dir)), NameOrder::Alphabetical)[i],
            ),
        forall|i: int|
            #![trigger r@[i]]
            0 <= i < r@.len() ==> {
                let file = by_name(wav_files(entries_in(dir)), NameOrder::Alphabetical)[i];
                &&& r@[i].name@ == file.name@
                &&& r@[i].size@ == file.size@
                &&& r@[i].duration@ == clock(stem_seconds(file.bytes as nat))
            },
        forall|i: int, j: int|
            0 <= i < j < r@.len() ==> !text_less((#[trigger] r@[j]).name@, (#[trigger] r@[i]).name@),
        sorted(by_name(wav_files(entries_in(dir)), NameOrder::Alphabetical), NameOrder::Alphabetical),
        stable_rearrangement(
            wav_files(entries_in(dir)),
            by_name(wav_files(entries_in(dir)), NameOrder::Alphabetical),
        ),
{
    let mut wavs: Vec<StemFile> = Vec::new();
    let ghost all = entries_in(dir);
    proof {
        reveal(Seq::filter);
        assert(all.take(0) == Seq::<StemFile>::empty());
        assert(wavs@ == wav_files(all.take(0)));
    }
    if let Some(entries) = dir {
        for f in it: entries
            invariant
                it.seq() == all,
                wavs@ == wav_files(all.take(it.index())),
        {
            let ghost next = all.take(it.index() + 1);
            proof {
                reveal(Seq::filter);
                assert(next.drop_last() == all.take(it.index()));
                assert(next.last() == f);
            }
            if is_wav(f.name.as_str()) {
                wavs.push(f);
            }
            assert(wavs@ == wav_files(next));
        }
        assert(all.take(all.len() as int) == all);
    }
    assert(wavs@ == wav_files(all));
    let wavs = sort_named(wavs, NameOrder::Alphabetical);
    let mut stems: Vec<Stem> = Vec::new();
    let ghost files = wavs@;
    for f in it: wavs
        invariant
            it.seq() == files,
            stems@.len() == it.index(),
            forall|i: int| 0 <= i < stems@.len() ==> shows(#[trigger] stems@[i], files[i]),
            sorted(files, NameOrder::Alphabetical),
    {
        let secs: u64 = f.bytes.saturating_sub(WAV_HEADER_BYTES) / BYTES_PER_SECOND;
        assert(secs as nat == stem_seconds(f.bytes as nat));
        stems.push(Stem { name: f.name, size: f.size, duration: fmt_duration(secs) });
    }
    assert forall|i: int, j: int| 0 <= i < j < stems@.len() implies !text_less(
        (#[trigger] stems@[j]).name@,
        (#[trigger] stems@[i]).name@,
    ) by {
        assert(!goes_before(files[j].key(), files[i].key(), NameOrder::Alphabetical));
    }
    stems
}

// ---- laws -----------------------------------------------------------------------

/// In a list of sessions that is newest first, the session with the later of two
/// timestamps stands before the other, whatever their labels.
pub proof fn law_newest_first(
    list: Seq<Session>,
    i: int,
    j: int,
    label_i: Seq<char>,
    time_i: Seq<char>,
    label_j: Seq<char>,
    time_j: Seq<char>,
)
    requires
        newest_first(list),
        0 <= i < list.len(),
        0 <= j < list.len(),
        list[i].name@ == session_name(label_i, time_i),
        list[j].name@ == session_name(label_j, time_j),
        readable(label_i, time_i),
        readable(label_j, time_j),
        text_less(time_i, time_j),
    ensures
        j < i,
{
    law_later_stamp_is_newer(label_i, time_i, label_j, time_j);
}

/// So it does among the sessions of one label, whatever the label and the form of the
/// timestamps, where the names are read alike.
pub proof fn law_newest_first_in_a_label(
    list: Seq<Session>,
    i: int,
    j: int,
    label: Seq<char>,
    time_i: Seq<char>,
    time_j: Seq<char>,
)
    requires
        newest_first(list),
        0 <= i < list.len(),
        0 <= j < list.len(),
        list[i].name@ == session_name(label, time_i),
        list[j].name@ == session_name(label, time_j),
        time_i.len() == time_j.len(),
        read_alike(label, time_i, time_j),
        text_less(time_i, time_j),
    ensures
        j < i,
{
    law_later_stamp_is_newer_in_a_label(label, time_i, time_j);
}

/// The names of the sessions of one label descend, where their timestamps are of one form
/// and no two are the same.
pub proof fn law_names_descend_in_a_label(
    list: Seq<Session>,
    label: Seq<char>,
    times: Seq<Seq<char>>,
    i: int,
    j: int,
)
    requires
        newest_first(list),
        times.len() == list.len(),
        forall|k: int|
            0 <= k < list.len() ==> (#[trigger] list[k]).name@ == session_name(label, times[k]),
        forall|k: int, n: int|
            0 <= k < n < times.len() ==> one_form(#[trigger] times[k], #[trigger] times[n])
                && times[k] != times[n],
        forall|k: int| 0 <= k < times.len() ==> whole_stamp(#[trigger] times[k]),
        0 <= i < j < list.len(),
    ensures
        text_less(list[j].name@, list[i].name@),
{
    let (a, b) = (times[i], times[j]);
    assert(list[i].name@ == session_name(label, a));
    assert(list[j].name@ == session_name(label, b));
    law_one_form_is_read_alike(label, a, b);
    lemma_text_less_total(a, b);
    if text_less(a, b) {
        law_newest_first_in_a_label(list, i, j, label, a, b);
    } else {
        law_later_stamp_is_newer_in_a_label(label, b, a);
    }
}

/// A stem of so many seconds of sound behind its header shows exactly those seconds.
pub proof fn law_size_gives_duration(secs: nat, rest: nat)
    requires
        rest < BYTES_PER_SECOND,
    ensures
        stem_seconds(WAV_HEADER_BYTES as nat + secs * BYTES_PER_SECOND as nat + rest) == secs,
        stem_seconds(78 + secs * (48000 * 2 * 3) + rest) == secs,
{
    assert((secs * 288000 + rest) / 288000 == secs) by (nonlinear_arith)
        requires
            rest < 288000,
    ;
}

/// A file too short for its header and a second of sound shows no seconds.
pub proof fn law_short_file_shows_nothing(bytes: nat)
    requires
        bytes < 78 + 48000 * 2 * 3,
    ensures
        stem_seconds(bytes) == 0,
{
    assert(BYTES_PER_SECOND == 288000);
    if bytes >= 78 {
        let n = (bytes - 78) as nat;
        assert(n / 288000 == 0) by (nonlinear_arith)
            requires
                0 <= n < 288000,
        ;
    }
}

/// A shown duration reads back: hours, minutes and seconds, in this order and parted by
/// colons. Minutes and seconds are two digits each and below 60; hours are two digits or
/// more, and no more than two where the first is a zero.
pub proof fn law_clock_reads_back(secs: nat)
    ensures
        exists|h: Seq<char>, m: Seq<char>, s: Seq<char>|
            clock(secs) == #[trigger] (h + seq![':'] + m + seq![':'] + s) && all_digits(h)
                && all_digits(m) && all_digits(s) && h.len() >= 2 && (h[0] == '0' ==> h.len() == 2)
                && m.len() == 2 && s.len() == 2 && digits_value(m) < 60 && digits_value(s) < 60
                && digits_value(h) * 3600 + digits_value(m) * 60 + digits_value(s) == secs,
{
    reveal_strlit(":");
    let (h, m, s) = (two_digits(secs / 3600), two_digits((secs / 60) % 60), two_digits(secs % 60));
    lemma_two_digits(secs / 3600);
    lemma_two_digits((secs / 60) % 60);
    lemma_two_digits(secs % 60);
    assert(":"@ == seq![':']);
    assert(clock(secs) == h + seq![':'] + m + seq![':'] + s);
    assert((secs / 3600) * 3600 + ((secs / 60) % 60) * 60 + secs % 60 == secs);
    crate::number::law_decimal_starts_with_no_zero(secs / 3600);
}

proof fn lemma_two_digits(n: nat)
    ensures
        digits_value(two_digits(n)) == n,
        all_digits(two_digits(n)),
        two_digits(n).len() >= 2,
        n < 100 ==> two_digits(n).len() == 2,
{
    if n >= 10 {
        crate::number::lemma_decimal_digits(n / 10);
    }
    crate::number::lemma_decimal_digits(n);
    let s = two_digits(n);
    if n < 10 {
        assert(s.drop_last() == seq!['0']);
        assert(s.drop_last().drop_last() == Seq::<char>::empty());
        assert(digits_value(s.drop_last().drop_last()) == 0);
        assert(digits_value(s.drop_last()) == 0);
    } else if n < 100 {
        assert(decimal(n / 10) == seq![digit(n / 10)]);
    }
}

/// Different durations are shown differently.
pub proof fn law_clock_injective(a: nat, b: nat)
    requires
        clock(a) == clock(b),
    ensures
        a == b,
{
    reveal_strlit(":");
    let (ha, ma, sa) = (two_digits(a / 3600), two_digits((a / 60) % 60), two_digits(a % 60));
    let (hb, mb, sb) = (two_digits(b / 3600), two_digits((b / 60) % 60), two_digits(b % 60));
    lemma_two_digits(a / 3600);
    lemma_two_digits((a / 60) % 60);
    lemma_two_digits(a % 60);
    lemma_two_digits(b / 3600);
    lemma_two_digits((b / 60) % 60);
    lemma_two_digits(b % 60);
    let t = clock(a);
    let n = t.len() as int;
    assert(ha == t.subrange(0, n - 6) && hb == t.subrange(0, n - 6));
    assert(ma == t.subrange(n - 5, n - 3) && mb == t.subrange(n - 5, n - 3));
    assert(sa == t.subrange(n - 2, n) && sb == t.subrange(n - 2, n));
}

/// The files with something before `.wav` at their end are WAV files, and no others are.
pub proof fn law_wav_names(stem: Seq<char>, name: Seq<char>)
    ensures
        wav_name(stem + seq!['.', 'w', 'a', 'v']) <==> stem.len() > 0,
        wav_name(name) ==> name.len() > 4 && name == name.take(name.len() - 4) + seq![
            '.',
            'w',
            'a',
            'v',
        ],
{
    reveal_strlit(".wav");
    let ext = seq!['.', 'w', 'a', 'v'];
    assert(".wav"@ == ext);
    let s = stem + ext;
    assert(s.subrange(s.len() - 4, s.len() as int) == ext);
    if wav_name(name) {
        assert(name.subrange(name.len() - 4, name.len() as int) == ext);
        assert(name == name.take(name.len() - 4) + ext);
    }
}

/// The stems of a session are counted one by one, and nothing but WAV files is counted.
pub proof fn law_stems_are_counted(names: Seq<String>, name: String)
    ensures
        wav_count(names.push(name)) == wav_count(names) + if wav_name(name@) {
            1nat
        } else {
            0
        },
        wav_count(Seq::empty()) == 0,
        wav_count(names_in(None)) == 0,
{
    reveal(Seq::filter);
    assert(names.push(name).drop_last() == names);
}

/// Each directory among the entries is a session, with its own name and path and the count
/// of its own stems; and nothing else is.
pub proof fn law_directories_are_sessions(entries: Seq<SessionEntry>, e: SessionEntry)
    ensures
        e.is_dir ==> sessions_in(entries.push(e)).len() == sessions_in(entries).len() + 1
            && sessions_in(entries.push(e)).drop_last() == sessions_in(entries)
            && sessions_in(entries.push(e)).last().name == e.name && sessions_in(
            entries.push(e),
        ).last().path == e.path && sessions_in(entries.push(e)).last().stems == wav_count(
            names_in(e.files),
        ) as usize,
        !e.is_dir ==> sessions_in(entries.push(e)) == sessions_in(entries),
        sessions_in(Seq::empty()) == Seq::<Session>::empty(),
        e.files matches Some(names) ==> names_in(e.files) == names@,
{
    reveal(Seq::filter);
    let pred = |e: SessionEntry| e.is_dir;
    let one = |e: SessionEntry| session_of(e);
    assert(entries.push(e).drop_last() == entries);
    let kept = entries.filter(pred);
    assert(kept.push(e).map_values(one) == kept.map_values(one).push(session_of(e)));
    assert(kept.map_values(one).push(session_of(e)).drop_last() == kept.map_values(one));
    assert(Seq::<SessionEntry>::empty().filter(pred) == Seq::<SessionEntry>::empty());
    assert(sessions_in(Seq::empty()) == Seq::<Session>::empty());
}

/// Each WAV file of a session is a stem, and nothing else is; and a directory that cannot be
/// read holds nothing.
pub proof fn law_wav_files_are_stems(files: Seq<StemFile>, f: StemFile, dir: Vec<StemFile>)
    ensures
        wav_files(files.push(f)) == if wav_name(f.name@) {
            wav_files(files).push(f)
        } else {
            wav_files(files)
        },
        wav_files(Seq::empty()) == Seq::<StemFile>::empty(),
        entries_in(Some(dir)) == dir@,
        entries_in(None::<Vec<StemFile>>) == Seq::<StemFile>::empty(),
{
    reveal(Seq::filter);
    assert(files.push(f).drop_last() == files);
}

} // verus!
