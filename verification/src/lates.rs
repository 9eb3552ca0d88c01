//! The tally of log lines that say that something came late.

use vstd::prelude::*;

use crate::text::chars_of;

verus! {

/// `char::is_alphanumeric`: the character is a letter or a number of Unicode.
pub uninterp spec fn alphanumeric(c: char) -> bool;

/// An ASCII letter or digit.
pub open spec fn ascii_alphanumeric(c: char) -> bool {
    'a' <= c <= 'z' || 'A' <= c <= 'Z' || '0' <= c <= '9'
}

/// `char::is_alphanumeric` depends on the character alone. In ASCII it holds of the
/// letters and digits; which characters beyond ASCII are letters or numbers is left to
/// the name `alphanumeric`.
pub assume_specification[ char::is_alphanumeric ](c: char) -> (r: bool)
    ensures
        r == alphanumeric(c),
        c <= '\u{7f}' ==> r == ascii_alphanumeric(c),
;

/// `c` with an ASCII capital made small.
pub open spec fn lower(c: char) -> char {
    if 'A' <= c <= 'Z' {
        (c as u32 + 32) as char
    } else {
        c
    }
}

/// The word `late`, in capitals or not, stands in `line` at index `i`. `word` tells
/// which characters are part of a word; the others part words.
pub open spec fn late_at(line: Seq<char>, word: Seq<bool>, i: int) -> bool {
    &&& 0 <= i
    &&& i + "late"@.len() <= line.len()
    &&& forall|k: int|
        0 <= k < "late"@.len() ==> lower(line[i + k]) == #[trigger] "late"@[k] && word[i + k]
    &&& i == 0 || !word[i - 1]
    &&& i + "late"@.len() == line.len() || !word[i + "late"@.len()]
}

/// The word `late` stands somewhere in `line`.
pub open spec fn has_late(line: Seq<char>, word: Seq<bool>) -> bool {
    exists|i: int| #[trigger] late_at(line, word, i)
}

/// Which characters of `line` are part of a word.
pub open spec fn word_chars(line: Seq<char>) -> Seq<bool> {
    Seq::new(line.len(), |i: int| alphanumeric(line[i]))
}

fn late_stands_at(line: &[char], word: &[bool], i: usize) -> (r: bool)
    requires
        word@.len() == line@.len(),
        i < line@.len(),
    ensures
        r == late_at(line@, word@, i as int),
{
    proof {
        reveal_strlit("late");
    }
    if line.len() - i < 4 {
        return false;
    }
    let letters = (line[i] == 'l' || line[i] == 'L') && (line[i + 1] == 'a' || line[i + 1] == 'A')
        && (line[i + 2] == 't' || line[i + 2] == 'T') && (line[i + 3] == 'e' || line[i + 3] == 'E');
    let inside = word[i] && word[i + 1] && word[i + 2] && word[i + 3];
    let starts = i == 0 || !word[i - 1];
    let ends = line.len() - i == 4 || !word[i + 4];
    proof {
        assert(letters == (forall|k: int|
            0 <= k < "late"@.len() ==> lower(line@[i + k]) == #[trigger] "late"@[k])) by {
            if forall|k: int|
                0 <= k < "late"@.len() ==> lower(line@[i + k]) == #[trigger] "late"@[k] {
                assert(lower(line@[i + 0]) == "late"@[0]);
                assert(lower(line@[i + 1]) == "late"@[1]);
                assert(lower(line@[i + 2]) == "late"@[2]);
                assert(lower(line@[i + 3]) == "late"@[3]);
            }
        }
        if late_at(line@, word@, i as int) {
            assert("late"@[0] == 'l');
            assert("late"@[1] == 'a');
            assert("late"@[2] == 't');
            assert("late"@[3] == 'e');
        }
    }
    letters && inside && starts && ends
}

/// Looks for the word `late`, given which characters are part of a word.
pub fn has_late_word(line: &[char], word: &[bool]) -> (r: bool)
    requires
        word@.len() == line@.len(),
    ensures
        r == has_late(line@, word@),
{
    let mut i: usize = 0;
    while i < line.len()
        invariant
            i <= line@.len(),
            word@.len() == line@.len(),
            forall|k: int| 0 <= k < i ==> !#[trigger] late_at(line@, word@, k),
        decreases line@.len() - i,
    {
        if late_stands_at(line, word, i) {
            return true;
        }
        i += 1;
    }
    proof {
        reveal_strlit("late");
    }
    false
}

/// Does the line hold the word `late`?
pub fn is_late(line: &str) -> (r: bool)
    ensures
        r == has_late(line@, word_chars(line@)),
{
    let chars = chars_of(line);
    let mut word: Vec<bool> = Vec::new();
    let mut i: usize = 0;
    while i < chars.len()
        invariant
            i <= chars@.len(),
            word@ == word_chars(chars@).take(i as int),
        decreases chars@.len() - i,
    {
        word.push(chars[i].is_alphanumeric());
        i += 1;
    }
    assert(word@ == word_chars(chars@));
    has_late_word(chars.as_slice(), word.as_slice())
}

/// How many late lines were logged.
pub struct LateCounter {
    pub count: u32,
}

impl LateCounter {
    pub fn new() -> (r: LateCounter)
        ensures
            r.count == 0,
    {
        LateCounter { count: 0 }
    }

    /// Counts a logged line and gives the tally.
    pub fn log_line(&mut self, line: &str) -> (lates: u32)
        requires
            has_late(line@, word_chars(line@)) ==> old(self).count < u32::MAX,
        ensures
            final(self).count == old(self).count + if has_late(line@, word_chars(line@)) {
                1int
            } else {
                0
            },
            lates == final(self).count,
    {
        if is_late(line) {
            self.count = self.count + 1;
        }
        self.count
    }

    /// Counts a logged line and gives the tally; none where the line is late and the tally
    /// is full.
    pub fn try_log_line(&mut self, line: &str) -> (lates: Option<u32>)
        ensures
            match lates {
                Some(n) => n == final(self).count && final(self).count == old(self).count
                    + if has_late(line@, word_chars(line@)) {
                    1int
                } else {
                    0
                },
                None => has_late(line@, word_chars(line@)) && old(self).count == u32::MAX
                    && final(self).count == old(self).count,
            },
    {
        if self.count == u32::MAX && is_late(line) {
            None
        } else {
            Some(self.log_line(line))
        }
    }
}

/// Capitals make no difference.
pub proof fn law_case_makes_no_difference(a: Seq<char>, b: Seq<char>, word: Seq<bool>)
    requires
        a.len() == b.len(),
        forall|i: int| 0 <= i < a.len() ==> lower(#[trigger] a[i]) == lower(b[i]),
    ensures
        has_late(a, word) == has_late(b, word),
{
    assert forall|i: int| late_at(a, word, i) == #[trigger] late_at(b, word, i) by {
        assert forall|k: int| 0 <= k < "late"@.len() && 0 <= i && i + "late"@.len()
            <= a.len() implies (lower(a[i + k]) == #[trigger] "late"@[k]) == (lower(b[i + k])
            == "late"@[k]) by {
            assert(lower(a[i + k]) == lower(b[i + k]));
        }
    }
    if has_late(a, word) {
        let i = choose|i: int| #[trigger] late_at(a, word, i);
        assert(late_at(b, word, i));
    }
}

/// The word is found wherever it stands on its own: at either end of the line, or with
/// something that is no letter or digit beside it.
pub proof fn law_word_is_found(a: Seq<char>, w: Seq<char>, b: Seq<char>, word: Seq<bool>)
    requires
        w.len() == "late"@.len(),
        forall|k: int| 0 <= k < w.len() ==> lower(#[trigger] w[k]) == "late"@[k],
        forall|k: int| a.len() <= k < a.len() + w.len() ==> #[trigger] word[k],
        a.len() == 0 || !word[a.len() - 1],
        b.len() == 0 || !word[(a.len() + w.len()) as int],
    ensures
        has_late(a + w + b, word),
{
    let line = a + w + b;
    let i = a.len() as int;
    assert forall|k: int| 0 <= k < "late"@.len() implies lower(line[i + k]) == #[trigger] "late"@[k]
        && word[i + k] by {
        assert(line[i + k] == w[k]);
    }
    assert(late_at(line, word, i));
}

/// Only the whole word counts: a letter or digit right before or behind makes it part
/// of another word.
pub proof fn law_whole_word_only(line: Seq<char>, word: Seq<bool>, i: int)
    requires
        (0 < i && word[i - 1]) || (i + "late"@.len() < line.len() && word[i + "late"@.len()]),
    ensures
        !late_at(line, word, i),
{
}

/// The four letters, each small or capital.
pub open spec fn spells_late(w: Seq<char>) -> bool {
    &&& w.len() == 4
    &&& w[0] == 'l' || w[0] == 'L'
    &&& w[1] == 'a' || w[1] == 'A'
    &&& w[2] == 't' || w[2] == 'T'
    &&& w[3] == 'e' || w[3] == 'E'
}

/// `w` is a word of the line `a + w + b`: it is made of letters and digits, and none stands
/// right before it or behind.
pub open spec fn word_between(a: Seq<char>, w: Seq<char>, b: Seq<char>) -> bool {
    &&& forall|k: int| 0 <= k < w.len() ==> alphanumeric(#[trigger] w[k])
    &&& a.len() > 0 ==> !alphanumeric(a.last())
    &&& b.len() > 0 ==> !alphanumeric(b[0])
}

/// A line is late where and only where one of its words spells `late`.
pub proof fn law_late_is_a_word_of_the_line(line: Seq<char>)
    ensures
        has_late(line, word_chars(line)) <==> exists|a: Seq<char>, w: Seq<char>, b: Seq<char>|
            line == #[trigger] (a + w + b) && spells_late(w) && word_between(a, w, b),
{
    reveal_strlit("late");
    let word = word_chars(line);
    assert("late"@[0] == 'l' && "late"@[1] == 'a' && "late"@[2] == 't' && "late"@[3] == 'e');
    if has_late(line, word) {
        let i = choose|i: int| #[trigger] late_at(line, word, i);
        let (a, w, b) = (line.take(i), line.subrange(i, i + 4), line.skip(i + 4));
        assert(lower(line[i + 0]) == "late"@[0] && word[i + 0]);
        assert(lower(line[i + 1]) == "late"@[1] && word[i + 1]);
        assert(lower(line[i + 2]) == "late"@[2] && word[i + 2]);
        assert(lower(line[i + 3]) == "late"@[3] && word[i + 3]);
        assert(line == a + w + b);
        assert(w[0] == line[i] && w[1] == line[i + 1] && w[2] == line[i + 2] && w[3] == line[i
            + 3]);
        assert(spells_late(w));
        assert(a.len() > 0 ==> a.last() == line[i - 1]);
        assert(b.len() > 0 ==> b[0] == line[i + 4]);
        assert(word_between(a, w, b));
    }
    if exists|a: Seq<char>, w: Seq<char>, b: Seq<char>|
        line == #[trigger] (a + w + b) && spells_late(w) && word_between(a, w, b) {
        let (a, w, b) = choose|a: Seq<char>, w: Seq<char>, b: Seq<char>|
            line == #[trigger] (a + w + b) && spells_late(w) && word_between(a, w, b);
        let i = a.len() as int;
        assert forall|k: int| 0 <= k < "late"@.len() implies lower(line[i + k])
            == #[trigger] "late"@[k] && word[i + k] by {
            assert(line[i + k] == w[k]);
            assert(alphanumeric(w[k]));
            assert(k == 0 || k == 1 || k == 2 || k == 3);
        }
        assert(a.len() > 0 ==> line[i - 1] == a.last());
        assert(b.len() > 0 ==> line[i + 4] == b[0]);
        assert(late_at(line, word, i));
    }
}

} // verus!
