//! The age of recording sessions, as their names tell it.
//!
//! A session's directory is named `<session>_<timestamp>`. Both the label in front and the
//! timestamp may hold underscores of their own, as in `take_2_20260101_120000`, so the
//! timestamp is found by the date that it starts with:
//!
//! - It starts behind the last underscore that a full date follows: `20260102` or
//!   `2026-01-02`, also parted by `.` or `_`, or fourteen digits of date and clock in one.
//! - Without a full date, it starts behind the first underscore that a short date follows:
//!   six digits or more in a row, as in `260102_120000`, or `26-01-02`. There may be no more
//!   than three digits before it, or it could be the clock behind a date of another form.
//!
//! A name with neither is undated. Where a name holds another date, the two cannot always be
//! told apart: of `jam_20251231_260102_120000` all behind the first underscore counts as the
//! timestamp. Nor is the short date of `live2025_260102` read, as four digits stand before
//! it. Such sessions are in order of time among those of their label, and not among others.

use vstd::prelude::*;
use vstd::slice::slice_subrange;

use crate::number::{all_digits, digits_value};
use crate::order::{
    is_text_less, law_common_start_does_not_count, lemma_text_less_irreflexive,
    lemma_text_less_total, lemma_text_less_transitive, text_less,
};
use crate::text::{ascii_digit, same};

verus! {

/// So many digits before a short date leave it a date.
pub const LABEL_DIGITS: usize = 3;

/// How many digits `s` starts with.
pub open spec fn digits_ahead(s: Seq<char>) -> nat
    decreases s.len(),
{
    if s.len() > 0 && ascii_digit(s[0]) {
        1 + digits_ahead(s.skip(1))
    } else {
        0
    }
}

/// How many digits `s` holds.
pub open spec fn digit_count(s: Seq<char>) -> nat
    decreases s.len(),
{
    if s.len() == 0 {
        0
    } else {
        digit_count(s.drop_last()) + if ascii_digit(s.last()) {
            1nat
        } else {
            0
        }
    }
}

/// `c` parts the year, the month and the day of a date.
pub open spec fn parts_date(c: char, underscore: bool) -> bool {
    c == '-' || c == '.' || (underscore && c == '_')
}

/// `s` starts with a year of so many digits, a month and a day, parted from each other.
pub open spec fn parted_date(s: Seq<char>, year: int, underscore: bool) -> bool {
    &&& s.len() >= year + 6
    &&& digits_ahead(s) == year
    &&& parts_date(s[year], underscore)
    &&& digits_ahead(s.skip(year + 1)) == 2
    &&& parts_date(s[year + 3], underscore)
    &&& digits_ahead(s.skip(year + 4)) == 2
}

/// `s` starts with a date whose year has four digits.
pub open spec fn full_date(s: Seq<char>) -> bool {
    digits_ahead(s) == 8 || digits_ahead(s) == 14 || parted_date(s, 4, true)
}

/// `s` starts with a date whose year has two digits, or with a long row of digits.
pub open spec fn short_date(s: Seq<char>) -> bool {
    digits_ahead(s) >= 6 || parted_date(s, 2, false)
}

/// An underscore with a full date behind it stands at index `k`.
pub open spec fn full_at(name: Seq<char>, k: int) -> bool {
    0 <= k < name.len() && name[k] == '_' && full_date(name.skip(k + 1))
}

/// An underscore with a short date behind it, and few digits before it, stands at index `k`.
pub open spec fn short_at(name: Seq<char>, k: int) -> bool {
    &&& 0 <= k < name.len()
    &&& name[k] == '_'
    &&& short_date(name.skip(k + 1))
    &&& digit_count(name.take(k)) <= LABEL_DIGITS
}

/// The greatest index up to `i` of an underscore with a full date behind it, or a negative
/// number where there is none.
pub open spec fn last_full(name: Seq<char>, i: int) -> int
    decreases i + 1,
{
    if i < 0 || full_at(name, i) {
        i
    } else {
        last_full(name, i - 1)
    }
}

/// The least index from `i` on of an underscore with a short date behind it, or the length
/// of the name where there is none.
pub open spec fn first_short(name: Seq<char>, i: int) -> int
    decreases name.len() - i,
{
    if i >= name.len() || short_at(name, i) {
        i
    } else {
        first_short(name, i + 1)
    }
}

/// Where the timestamp starts in a session's name; nowhere in one that is undated.
pub open spec fn stamp_start(name: Seq<char>) -> Option<int> {
    let full = last_full(name, name.len() - 1);
    let short = first_short(name, 0);
    if full >= 0 {
        Some(full + 1)
    } else if short < name.len() {
        Some(short + 1)
    } else {
        None
    }
}

/// The timestamp of a session's name.
pub open spec fn stamp(name: Seq<char>) -> Option<Seq<char>> {
    match stamp_start(name) {
        Some(start) => Some(name.skip(start)),
        None => None,
    }
}

/// The session named `a` is newer than the one named `b`: its timestamp is later. Of two
/// with one timestamp, and of two that are undated, the one with the greater name counts as
/// newer; and one with a timestamp counts as newer than one without.
pub open spec fn newer(a: Seq<char>, b: Seq<char>) -> bool {
    match (stamp(a), stamp(b)) {
        (Some(s), Some(t)) => text_less(t, s) || (s == t && text_less(b, a)),
        (Some(_), None) => true,
        (None, Some(_)) => false,
        (None, None) => text_less(b, a),
    }
}

// ---- reading ----------------------------------------------------------------------

fn count_ahead(s: &[char]) -> (r: usize)
    ensures
        r == digits_ahead(s@),
        r <= s@.len(),
{
    let mut i: usize = 0;
    assert(s@.skip(0) == s@);
    while i < s.len() && '0' <= s[i] && s[i] <= '9'
        invariant
            i <= s@.len(),
            digits_ahead(s@) == i + digits_ahead(s@.skip(i as int)),
        decreases s@.len() - i,
    {
        assert(s@.skip(i as int).skip(1) == s@.skip(i + 1));
        i += 1;
    }
    i
}

fn is_parted_date(s: &[char], year: usize, underscore: bool) -> (r: bool)
    requires
        year <= 4,
    ensures
        r == parted_date(s@, year as int, underscore),
{
    if s.len() < year + 6 || count_ahead(s) != year {
        return false;
    }
    let (p, q) = (s[year], s[year + 3]);
    let parted = (p == '-' || p == '.' || (underscore && p == '_')) && (q == '-' || q == '.' || (
    underscore && q == '_'));
    let month = slice_subrange(s, year + 1, s.len());
    let day = slice_subrange(s, year + 4, s.len());
    assert(month@ == s@.skip(year + 1));
    assert(day@ == s@.skip(year + 4));
    parted && count_ahead(month) == 2 && count_ahead(day) == 2
}

fn is_full_date(s: &[char]) -> (r: bool)
    ensures
        r == full_date(s@),
{
    let n = count_ahead(s);
    n == 8 || n == 14 || is_parted_date(s, 4, true)
}

fn is_short_date(s: &[char]) -> (r: bool)
    ensures
        r == short_date(s@),
{
    count_ahead(s) >= 6 || is_parted_date(s, 2, false)
}

/// The timestamp of a session's name.
pub fn stamp_of<'a>(name: &'a [char]) -> (r: Option<&'a [char]>)
    ensures
        match r {
            Some(t) => stamp(name@) == Some(t@),
            None => stamp(name@) is None,
        },
{
    let mut i: usize = name.len();
    while i > 0
        invariant
            i <= name@.len(),
            last_full(name@, i - 1) == last_full(name@, name@.len() - 1),
        decreases i,
    {
        let rest = slice_subrange(name, i, name.len());
        assert(rest@ == name@.skip(i as int));
        if name[i - 1] == '_' && is_full_date(rest) {
            return Some(rest);
        }
        i -= 1;
    }
    let mut seen: usize = 0;
    let mut k: usize = 0;
    while k < name.len()
        invariant
            k <= name@.len(),
            seen <= k,
            seen == digit_count(name@.take(k as int)),
            last_full(name@, name@.len() - 1) < 0,
            first_short(name@, k as int) == first_short(name@, 0),
        decreases name@.len() - k,
    {
        let rest = slice_subrange(name, k + 1, name.len());
        assert(rest@ == name@.skip(k + 1));
        if name[k] == '_' && seen <= LABEL_DIGITS && is_short_date(rest) {
            return Some(rest);
        }
        assert(name@.take(k + 1).drop_last() == name@.take(k as int));
        if '0' <= name[k] && name[k] <= '9' {
            seen += 1;
        }
        k += 1;
    }
    None
}

/// Is the session named `a` newer than the one named `b`?
pub fn is_newer(a: &[char], b: &[char]) -> (r: bool)
    ensures
        r == newer(a@, b@),
{
    match (stamp_of(a), stamp_of(b)) {
        (Some(s), Some(t)) => is_text_less(t, s) || (same(s, t) && is_text_less(b, a)),
        (Some(_), None) => true,
        (None, Some(_)) => false,
        (None, None) => is_text_less(b, a),
    }
}

proof fn lemma_text_less_asymmetric(a: Seq<char>, b: Seq<char>)
    requires
        text_less(a, b),
    ensures
        !text_less(b, a),
        a != b,
{
    lemma_text_less_irreflexive(a);
    if text_less(b, a) {
        lemma_text_less_transitive(a, b, a);
    }
}

pub proof fn lemma_newer_asymmetric(a: Seq<char>, b: Seq<char>)
    requires
        newer(a, b),
    ensures
        !newer(b, a),
        a != b,
{
    if text_less(b, a) {
        lemma_text_less_asymmetric(b, a);
    }
    if let (Some(s), Some(t)) = (stamp(a), stamp(b)) {
        if text_less(t, s) {
            lemma_text_less_asymmetric(t, s);
        }
    }
}

pub proof fn lemma_newer_transitive(a: Seq<char>, b: Seq<char>, c: Seq<char>)
    requires
        newer(a, b),
        newer(b, c),
    ensures
        newer(a, c),
{
    if text_less(b, a) && text_less(c, b) {
        lemma_text_less_transitive(c, b, a);
    }
    if let (Some(s), Some(t), Some(u)) = (stamp(a), stamp(b), stamp(c)) {
        if text_less(t, s) && text_less(u, t) {
            lemma_text_less_transitive(u, t, s);
        }
    }
}

pub proof fn lemma_newer_total(a: Seq<char>, b: Seq<char>)
    ensures
        newer(a, b) || newer(b, a) || a == b,
{
    lemma_text_less_total(a, b);
    if let (Some(s), Some(t)) = (stamp(a), stamp(b)) {
        lemma_text_less_total(s, t);
    }
}

// ---- laws -------------------------------------------------------------------------

/// The name of a session's directory.
pub open spec fn session_name(label: Seq<char>, time: Seq<char>) -> Seq<char> {
    label + seq!['_'] + time
}

/// Two texts of one form: they have digits in the same places, and the same characters in
/// all others.
pub open spec fn one_form(a: Seq<char>, b: Seq<char>) -> bool {
    &&& a.len() == b.len()
    &&& forall|i: int|
        0 <= i < a.len() ==> #[trigger] a[i] == b[i] || (ascii_digit(a[i]) && ascii_digit(b[i]))
}

/// No later part of a timestamp reads as a timestamp itself: behind none of its underscores
/// stands a full date, nor a short one with few digits before it.
pub open spec fn whole_stamp(time: Seq<char>) -> bool {
    forall|k: int|
        #![trigger full_at(time, k)]
        #![trigger short_at(time, k)]
        !full_at(time, k) && !short_at(time, k)
}

/// Two names of one label are read alike: both as undated, or both with a timestamp that
/// starts in one place and leaves out nothing that stands behind the label.
pub open spec fn read_alike(label: Seq<char>, a: Seq<char>, b: Seq<char>) -> bool {
    &&& stamp_start(session_name(label, a)) == stamp_start(session_name(label, b))
    &&& stamp_start(session_name(label, a)) matches Some(start) ==> start <= label.len() + 1
}

/// The timestamp of the name is known for one, whatever the names of other sessions: it
/// starts with a full date; or it starts with a short one, and the label holds few digits
/// and no date.
pub open spec fn readable(label: Seq<char>, time: Seq<char>) -> bool {
    &&& whole_stamp(time)
    &&& full_date(time) || {
        &&& short_date(time)
        &&& digit_count(label) <= LABEL_DIGITS
        &&& forall|k: int|
            #![trigger full_at(session_name(label, time), k)]
            #![trigger short_at(session_name(label, time), k)]
            k < label.len() ==> !full_at(session_name(label, time), k) && !short_at(
                session_name(label, time),
                k,
            )
    }
}

proof fn lemma_last_full(name: Seq<char>, i: int)
    requires
        i < name.len(),
        -1 <= i,
    ensures
        -1 <= last_full(name, i) <= i,
        last_full(name, i) >= 0 ==> full_at(name, last_full(name, i)),
        forall|k: int| last_full(name, i) < k <= i ==> !#[trigger] full_at(name, k),
    decreases i + 1,
{
    if i >= 0 && !full_at(name, i) {
        lemma_last_full(name, i - 1);
    }
}

proof fn lemma_first_short(name: Seq<char>, i: int)
    requires
        0 <= i <= name.len(),
    ensures
        i <= first_short(name, i) <= name.len(),
        first_short(name, i) < name.len() ==> short_at(name, first_short(name, i)),
        forall|k: int| i <= k < first_short(name, i) ==> !#[trigger] short_at(name, k),
    decreases name.len() - i,
{
    if i < name.len() && !short_at(name, i) {
        lemma_first_short(name, i + 1);
    }
}

proof fn lemma_digits_ahead_form(a: Seq<char>, b: Seq<char>)
    requires
        one_form(a, b),
    ensures
        digits_ahead(a) == digits_ahead(b),
    decreases a.len(),
{
    if a.len() > 0 {
        assert(a[0] == b[0] || (ascii_digit(a[0]) && ascii_digit(b[0])));
        lemma_form_skip(a, b, 1);
        lemma_digits_ahead_form(a.skip(1), b.skip(1));
    }
}

proof fn lemma_form_skip(a: Seq<char>, b: Seq<char>, n: int)
    requires
        one_form(a, b),
        0 <= n <= a.len(),
    ensures
        one_form(a.skip(n), b.skip(n)),
{
    assert forall|i: int| 0 <= i < a.len() - n implies #[trigger] a.skip(n)[i] == b.skip(n)[i] || (
    ascii_digit(a.skip(n)[i]) && ascii_digit(b.skip(n)[i])) by {
        assert(a[n + i] == b[n + i] || (ascii_digit(a[n + i]) && ascii_digit(b[n + i])));
    }
}

proof fn lemma_digit_count_form(a: Seq<char>, b: Seq<char>)
    requires
        one_form(a, b),
    ensures
        digit_count(a) == digit_count(b),
    decreases a.len(),
{
    if a.len() > 0 {
        let n = a.len() - 1;
        assert(a[n] == b[n] || (ascii_digit(a[n]) && ascii_digit(b[n])));
        assert forall|i: int| 0 <= i < n implies #[trigger] a.drop_last()[i] == b.drop_last()[i]
            || (ascii_digit(a.drop_last()[i]) && ascii_digit(b.drop_last()[i])) by {
            assert(a[i] == b[i] || (ascii_digit(a[i]) && ascii_digit(b[i])));
        }
        lemma_digit_count_form(a.drop_last(), b.drop_last());
    }
}

proof fn lemma_parted_date_form(a: Seq<char>, b: Seq<char>, year: int, underscore: bool)
    requires
        one_form(a, b),
        0 <= year,
    ensures
        parted_date(a, year, underscore) == parted_date(b, year, underscore),
{
    lemma_digits_ahead_form(a, b);
    if a.len() >= year + 6 {
        assert(a[year] == b[year] || (ascii_digit(a[year]) && ascii_digit(b[year])));
        assert(a[year + 3] == b[year + 3] || (ascii_digit(a[year + 3]) && ascii_digit(
            b[year + 3],
        )));
        lemma_form_skip(a, b, year + 1);
        lemma_form_skip(a, b, year + 4);
        lemma_digits_ahead_form(a.skip(year + 1), b.skip(year + 1));
        lemma_digits_ahead_form(a.skip(year + 4), b.skip(year + 4));
    }
}

/// Dates stand in the same places of two texts of one form.
proof fn lemma_dates_form(a: Seq<char>, b: Seq<char>, k: int)
    requires
        one_form(a, b),
    ensures
        full_at(a, k) == full_at(b, k),
        short_at(a, k) == short_at(b, k),
{
    if 0 <= k < a.len() {
        assert(a[k] == b[k] || (ascii_digit(a[k]) && ascii_digit(b[k])));
        let (p, q) = (a.skip(k + 1), b.skip(k + 1));
        lemma_form_skip(a, b, k + 1);
        lemma_digits_ahead_form(p, q);
        lemma_parted_date_form(p, q, 4, true);
        lemma_parted_date_form(p, q, 2, false);
        assert forall|i: int| 0 <= i < k implies #[trigger] a.take(k)[i] == b.take(k)[i] || (
        ascii_digit(a.take(k)[i]) && ascii_digit(b.take(k)[i])) by {
            assert(a[i] == b[i] || (ascii_digit(a[i]) && ascii_digit(b[i])));
        }
        lemma_digit_count_form(a.take(k), b.take(k));
    }
}

/// Names of one form are read in one way: their timestamps start in one place.
pub proof fn law_one_form_starts_alike(a: Seq<char>, b: Seq<char>)
    requires
        one_form(a, b),
    ensures
        stamp_start(a) == stamp_start(b),
{
    lemma_last_full(a, a.len() - 1);
    lemma_last_full(b, b.len() - 1);
    lemma_first_short(a, 0);
    lemma_first_short(b, 0);
    let (fa, fb) = (last_full(a, a.len() - 1), last_full(b, b.len() - 1));
    let (sa, sb) = (first_short(a, 0), first_short(b, 0));
    lemma_dates_form(a, b, fa);
    lemma_dates_form(a, b, fb);
    lemma_dates_form(a, b, sa);
    lemma_dates_form(a, b, sb);
    assert(fa == fb) by {
        if fa < fb {
            assert(!full_at(a, fb));
        } else if fb < fa {
            assert(!full_at(b, fa));
        }
    }
    assert(sa == sb) by {
        if sa < sb {
            assert(!short_at(b, sa));
        } else if sb < sa {
            assert(!short_at(a, sb));
        }
    }
}

proof fn lemma_digit_count_append(a: Seq<char>, b: Seq<char>)
    ensures
        digit_count(a + b) == digit_count(a) + digit_count(b),
    decreases b.len(),
{
    if b.len() > 0 {
        assert((a + b).drop_last() == a + b.drop_last());
        lemma_digit_count_append(a, b.drop_last());
    } else {
        assert(a + b == a);
    }
}

/// No date stands behind the timestamp's own underscores.
proof fn lemma_no_later_start(label: Seq<char>, time: Seq<char>, k: int)
    requires
        whole_stamp(time),
        k > label.len(),
    ensures
        !full_at(session_name(label, time), k),
        !short_at(session_name(label, time), k),
{
    let name = session_name(label, time);
    let n = k - label.len() - 1;
    if k < name.len() {
        assert(0 <= n < time.len());
        assert(name[k] == time[n]);
        assert(name.skip(k + 1) == time.skip(n + 1));
        assert(name.take(k) == label + seq!['_'] + time.take(n));
        lemma_digit_count_append(label + seq!['_'], time.take(n));
        assert(!full_at(time, n) && !short_at(time, n));
    }
}

/// A timestamp is read whole: whatever the label, nothing that stands behind the label is
/// left out.
pub proof fn law_stamp_is_read_whole(label: Seq<char>, time: Seq<char>)
    requires
        whole_stamp(time),
    ensures
        stamp_start(session_name(label, time)) matches Some(start) ==> start <= label.len() + 1,
{
    let name = session_name(label, time);
    lemma_last_full(name, name.len() - 1);
    lemma_first_short(name, 0);
    let full = last_full(name, name.len() - 1);
    let short = first_short(name, 0);
    if full > label.len() {
        lemma_no_later_start(label, time, full);
    }
    if label.len() < short < name.len() {
        lemma_no_later_start(label, time, short);
    }
}

/// Timestamps of one form make names that are read alike, whatever the label.
pub proof fn law_one_form_is_read_alike(label: Seq<char>, a: Seq<char>, b: Seq<char>)
    requires
        one_form(a, b),
        whole_stamp(a),
    ensures
        read_alike(label, a, b),
{
    let (x, y) = (session_name(label, a), session_name(label, b));
    assert forall|i: int| 0 <= i < x.len() implies #[trigger] x[i] == y[i] || (ascii_digit(x[i])
        && ascii_digit(y[i])) by {
        let n = i - label.len() - 1;
        if n >= 0 {
            assert(x[i] == a[n] && y[i] == b[n]);
            assert(a[n] == b[n] || (ascii_digit(a[n]) && ascii_digit(b[n])));
        }
    }
    law_one_form_starts_alike(x, y);
    law_stamp_is_read_whole(label, a);
}

/// Of two sessions of one label that are read alike, the one with the later timestamp is
/// the newer; it is the one with the greater name.
pub proof fn law_later_stamp_is_newer_in_a_label(label: Seq<char>, a: Seq<char>, b: Seq<char>)
    requires
        a.len() == b.len(),
        read_alike(label, a, b),
        text_less(a, b),
    ensures
        newer(session_name(label, b), session_name(label, a)),
        !newer(session_name(label, a), session_name(label, b)),
        text_less(session_name(label, a), session_name(label, b)),
{
    let (x, y) = (session_name(label, a), session_name(label, b));
    let head = label + seq!['_'];
    law_common_start_does_not_count(head, a, b);
    if let Some(start) = stamp_start(x) {
        lemma_last_full(x, x.len() - 1);
        lemma_first_short(x, 0);
        let part = head.skip(start);
        assert(x.skip(start) == part + a);
        assert(y.skip(start) == part + b);
        law_common_start_does_not_count(part, a, b);
    }
    lemma_newer_asymmetric(y, x);
}

/// The timestamp is read back from a session's name.
pub proof fn law_stamp_reads_back(label: Seq<char>, time: Seq<char>)
    requires
        readable(label, time),
    ensures
        stamp(session_name(label, time)) == Some(time),
{
    let name = session_name(label, time);
    let at = label.len() as int;
    assert(name[at] == '_');
    assert(name.skip(at + 1) == time);
    assert(name.take(at) == label);
    lemma_last_full(name, name.len() - 1);
    lemma_first_short(name, 0);
    let full = last_full(name, name.len() - 1);
    let short = first_short(name, 0);
    if full > at {
        lemma_no_later_start(label, time, full);
    }
    if full_date(time) {
        assert(full_at(name, at));
        assert(full == at);
    } else {
        assert(short_at(name, at));
        assert(full < at ==> full < 0) by {
            if 0 <= full < at {
                assert(!full_at(name, full));
            }
        }
        assert(short == at) by {
            if short < at {
                assert(!full_at(name, short));
            } else if short > at {
                assert(!short_at(name, at));
            }
        }
    }
}

/// The later timestamp is the newer session, whatever the two labels.
pub proof fn law_later_stamp_is_newer(
    label_a: Seq<char>,
    a: Seq<char>,
    label_b: Seq<char>,
    b: Seq<char>,
)
    requires
        readable(label_a, a),
        readable(label_b, b),
        text_less(a, b),
    ensures
        newer(session_name(label_b, b), session_name(label_a, a)),
        !newer(session_name(label_a, a), session_name(label_b, b)),
{
    law_stamp_reads_back(label_a, a);
    law_stamp_reads_back(label_b, b);
    lemma_newer_asymmetric(session_name(label_b, b), session_name(label_a, a));
}

proof fn lemma_text_less_push(a: Seq<char>, b: Seq<char>, x: char, y: char)
    requires
        a.len() == b.len(),
    ensures
        text_less(a.push(x), b.push(y)) <==> text_less(a, b) || (a == b && x < y),
    decreases a.len(),
{
    let (p, q) = (a.push(x), b.push(y));
    if a.len() == 0 {
        assert(a == b);
        assert(p.skip(1) == Seq::<char>::empty());
        assert(q.skip(1) == Seq::<char>::empty());
        assert(p[0] == x && q[0] == y);
        assert(!text_less(p.skip(1), q.skip(1)));
    } else {
        assert(p[0] == a[0] && q[0] == b[0]);
        assert(p.skip(1) == a.skip(1).push(x));
        assert(q.skip(1) == b.skip(1).push(y));
        lemma_text_less_push(a.skip(1), b.skip(1), x, y);
        if a[0] == b[0] && a.skip(1) == b.skip(1) {
            assert(a == seq![a[0]] + a.skip(1));
            assert(b == seq![b[0]] + b.skip(1));
        }
        if a == b {
            lemma_text_less_irreflexive(a.skip(1));
        }
    }
}

/// Of two equally long rows of digits, the one that is later in the order of texts is the
/// greater number.
pub proof fn law_later_digits_are_greater(a: Seq<char>, b: Seq<char>)
    requires
        all_digits(a),
        all_digits(b),
        a.len() == b.len(),
    ensures
        text_less(a, b) <==> digits_value(a) < digits_value(b),
        a == b <==> digits_value(a) == digits_value(b),
    decreases a.len(),
{
    if a.len() > 0 {
        let (p, q) = (a.drop_last(), b.drop_last());
        assert forall|i: int| 0 <= i < p.len() implies ascii_digit(#[trigger] p[i]) by {
            assert(ascii_digit(a[i]));
        }
        assert forall|i: int| 0 <= i < q.len() implies ascii_digit(#[trigger] q[i]) by {
            assert(ascii_digit(b[i]));
        }
        assert(ascii_digit(a[a.len() - 1]) && ascii_digit(b[b.len() - 1]));
        law_later_digits_are_greater(p, q);
        lemma_text_less_push(p, q, a.last(), b.last());
        assert(p.push(a.last()) == a);
        assert(q.push(b.last()) == b);
        lemma_text_less_irreflexive(p);
    } else {
        assert(a == b);
    }
}

proof fn lemma_digits_ahead_all(s: Seq<char>)
    requires
        all_digits(s),
    ensures
        digits_ahead(s) == s.len(),
    decreases s.len(),
{
    if s.len() > 0 {
        assert(ascii_digit(s[0]));
        assert forall|i: int| 0 <= i < s.skip(1).len() implies ascii_digit(
            #[trigger] s.skip(1)[i],
        ) by {
            assert(ascii_digit(s[i + 1]));
        }
        lemma_digits_ahead_all(s.skip(1));
    }
}

/// Of two sessions whose timestamps are eight digits, or fourteen, the one with the greater
/// number is the newer, whatever the two labels.
pub proof fn law_greater_number_is_newer(
    label_a: Seq<char>,
    a: Seq<char>,
    label_b: Seq<char>,
    b: Seq<char>,
)
    requires
        all_digits(a),
        all_digits(b),
        a.len() == b.len(),
        a.len() == 8 || a.len() == 14,
        digits_value(a) < digits_value(b),
    ensures
        newer(session_name(label_b, b), session_name(label_a, a)),
        !newer(session_name(label_a, a), session_name(label_b, b)),
{
    law_later_digits_are_greater(a, b);
    lemma_digits_ahead_all(a);
    lemma_digits_ahead_all(b);
    assert forall|k: int|
        #![trigger full_at(a, k)]
        #![trigger short_at(a, k)]
        !full_at(a, k) && !short_at(a, k) by {
        if 0 <= k < a.len() {
            assert(ascii_digit(a[k]));
        }
    }
    assert forall|k: int|
        #![trigger full_at(b, k)]
        #![trigger short_at(b, k)]
        !full_at(b, k) && !short_at(b, k) by {
        if 0 <= k < b.len() {
            assert(ascii_digit(b[k]));
        }
    }
    law_later_stamp_is_newer(label_a, a, label_b, b);
}

proof fn lemma_digits_ahead_of(d: Seq<char>, rest: Seq<char>)
    requires
        all_digits(d),
        rest.len() > 0 ==> !ascii_digit(rest[0]),
    ensures
        digits_ahead(d + rest) == d.len(),
    decreases d.len(),
{
    if d.len() > 0 {
        assert(ascii_digit(d[0]));
        assert((d + rest)[0] == d[0]);
        assert((d + rest).skip(1) == d.skip(1) + rest);
        assert forall|i: int| 0 <= i < d.skip(1).len() implies ascii_digit(
            #[trigger] d.skip(1)[i],
        ) by {
            assert(ascii_digit(d[i + 1]));
        }
        lemma_digits_ahead_of(d.skip(1), rest);
    } else {
        assert(d + rest == rest);
    }
}

/// A year of four digits, a month and a day make a full date, in one row or parted by `-`,
/// `.` or `_`, whatever follows that is no digit; and so do the fourteen digits of a date and
/// a clock.
pub proof fn law_full_dates(
    year: Seq<char>,
    p: char,
    month: Seq<char>,
    q: char,
    day: Seq<char>,
    clock: Seq<char>,
    rest: Seq<char>,
)
    requires
        all_digits(year) && year.len() == 4,
        all_digits(month) && month.len() == 2,
        all_digits(day) && day.len() == 2,
        all_digits(clock) && clock.len() == 6,
        p == '-' || p == '.' || p == '_',
        q == '-' || q == '.' || q == '_',
        rest.len() > 0 ==> !('0' <= rest[0] <= '9'),
    ensures
        full_date(year + month + day + rest),
        full_date(year + month + day + clock + rest),
        full_date(year + (seq![p] + (month + (seq![q] + (day + rest))))),
{
    let date = year + month + day;
    assert forall|i: int| 0 <= i < date.len() implies ascii_digit(#[trigger] date[i]) by {
        if i < 4 {
            assert(ascii_digit(year[i]));
        } else if i < 6 {
            assert(ascii_digit(month[i - 4]));
        } else {
            assert(ascii_digit(day[i - 6]));
        }
    }
    lemma_digits_ahead_of(date, rest);
    let full = date + clock;
    assert forall|i: int| 0 <= i < full.len() implies ascii_digit(#[trigger] full[i]) by {
        if i < 8 {
            assert(ascii_digit(date[i]));
        } else {
            assert(ascii_digit(clock[i - 8]));
        }
    }
    lemma_digits_ahead_of(full, rest);
    lemma_parted_date(year, p, month, q, day, rest, true);
}

proof fn lemma_parted_date(
    year: Seq<char>,
    p: char,
    month: Seq<char>,
    q: char,
    day: Seq<char>,
    rest: Seq<char>,
    underscore: bool,
)
    requires
        all_digits(year),
        all_digits(month) && month.len() == 2,
        all_digits(day) && day.len() == 2,
        parts_date(p, underscore),
        parts_date(q, underscore),
        rest.len() > 0 ==> !ascii_digit(rest[0]),
    ensures
        parted_date(
            year + (seq![p] + (month + (seq![q] + (day + rest)))),
            year.len() as int,
            underscore,
        ),
{
    let y = year.len() as int;
    let last = day + rest;
    let mid = month + (seq![q] + last);
    let s = year + (seq![p] + mid);
    lemma_digits_ahead_of(day, rest);
    lemma_digits_ahead_of(month, seq![q] + last);
    lemma_digits_ahead_of(year, seq![p] + mid);
    assert(s[y] == p && s[y + 3] == q);
    assert(s.skip(y + 1) == mid);
    assert(s.skip(y + 4) == last);
}

/// A row of six digits or more is a short date, and so are a year of two digits, a month and
/// a day parted by `-` or `.`, whatever follows that is no digit; and what starts with no
/// digit is no date.
pub proof fn law_short_dates(
    row: Seq<char>,
    year: Seq<char>,
    p: char,
    month: Seq<char>,
    q: char,
    day: Seq<char>,
    rest: Seq<char>,
)
    requires
        all_digits(row) && row.len() >= 6,
        all_digits(year) && year.len() == 2,
        all_digits(month) && month.len() == 2,
        all_digits(day) && day.len() == 2,
        p == '-' || p == '.',
        q == '-' || q == '.',
        rest.len() > 0 ==> !('0' <= rest[0] <= '9'),
    ensures
        short_date(row + rest),
        short_date(year + (seq![p] + (month + (seq![q] + (day + rest))))),
        !full_date(rest),
        !short_date(rest),
{
    lemma_digits_ahead_of(row, rest);
    lemma_parted_date(year, p, month, q, day, rest, false);
    assert(digits_ahead(rest) == 0);
}

/// Sessions without a timestamp go by their names, and behind all with one; and so do those
/// with one timestamp among themselves.
pub proof fn law_names_decide_last(a: Seq<char>, b: Seq<char>)
    ensures
        stamp(a) is None && stamp(b) is None ==> (newer(a, b) <==> text_less(b, a)),
        stamp(a) is Some && stamp(b) is None ==> newer(a, b) && !newer(b, a),
        stamp(a) is Some && stamp(a) == stamp(b) ==> (newer(a, b) <==> text_less(b, a)),
{
    if let Some(s) = stamp(a) {
        lemma_text_less_irreflexive(s);
    }
}

} // verus!
