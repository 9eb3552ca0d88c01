//! Text: the small vocabulary of string operations that the rest of the library
//! is written in. Text is modelled as `Seq<char>`.

use vstd::prelude::*;
use vstd::slice::slice_subrange;
use vstd::utf8::{decode_utf8, valid_utf8};

verus! {

/// `String::push` appends one character.
pub assume_specification[ String::push ](s: &mut String, c: char)
    ensures
        final(s)@ == old(s)@.push(c),
;

/// The text that `String::from_utf8_lossy` makes of bytes.
pub uninterp spec fn lossy_utf8(bytes: Seq<u8>) -> Seq<char>;

/// Calls `String::from_utf8_lossy`: bytes that are UTF-8 give the text that they
/// encode. Which replacement characters stand for bytes that are not is left to the
/// name `lossy_utf8`.
#[verifier::external_body]
pub(crate) fn text_of_bytes(bytes: &[u8]) -> (r: String)
    ensures
        r@ == lossy_utf8(bytes@),
        valid_utf8(bytes@) ==> r@ == decode_utf8(bytes@),
{
    String::from_utf8_lossy(bytes).into_owned()
}

/// The characters with Unicode's `White_Space` property.
pub open spec fn white_space(c: char) -> bool {
    ||| '\u{9}' <= c <= '\u{d}'
    ||| c == ' '
    ||| c == '\u{85}'
    ||| c == '\u{a0}'
    ||| c == '\u{1680}'
    ||| '\u{2000}' <= c <= '\u{200a}'
    ||| c == '\u{2028}'
    ||| c == '\u{2029}'
    ||| c == '\u{202f}'
    ||| c == '\u{205f}'
    ||| c == '\u{3000}'
}

pub open spec fn ascii_digit(c: char) -> bool {
    '0' <= c <= '9'
}

/// A set of characters that text is cut at or stripped of.
#[derive(Clone, Copy, Debug, PartialEq, Eq, Structural)]
pub enum CharClass {
    /// Unicode white space.
    WhiteSpace,
    /// The apostrophe and the two angle quotes.
    Quote,
    /// One character.
    Only(char),
}

impl CharClass {
    pub open spec fn has(self, c: char) -> bool {
        match self {
            CharClass::WhiteSpace => white_space(c),
            CharClass::Quote => c == '\'' || c == '\u{ab}' || c == '\u{bb}',
            CharClass::Only(d) => c == d,
        }
    }

    pub fn contains(&self, c: char) -> (r: bool)
        ensures
            r == self.has(c),
    {
        match self {
            CharClass::WhiteSpace => ('\u{9}' <= c && c <= '\u{d}') || c == ' ' || c == '\u{85}'
                || c == '\u{a0}' || c == '\u{1680}' || ('\u{2000}' <= c && c <= '\u{200a}') || c
                == '\u{2028}' || c == '\u{2029}' || c == '\u{202f}' || c == '\u{205f}' || c
                == '\u{3000}',
            CharClass::Quote => c == '\'' || c == '\u{ab}' || c == '\u{bb}',
            CharClass::Only(d) => c == *d,
        }
    }
}

pub fn chars_of(s: &str) -> (r: Vec<char>)
    ensures
        r@ == s@,
{
    let mut out: Vec<char> = Vec::new();
    for c in it: s.chars()
        invariant
            it.seq() == s@,
            out@ == s@.take(it.index()),
    {
        out.push(c);
    }
    out
}

pub fn text_of(s: &[char]) -> (r: String)
    ensures
        r@ == s@,
{
    let mut out = String::new();
    let mut i: usize = 0;
    while i < s.len()
        invariant
            i <= s@.len(),
            out@ == s@.take(i as int),
        decreases s@.len() - i,
    {
        out.push(s[i]);
        i += 1;
    }
    assert(s@.take(i as int) == s@);
    out
}

// ---- stripping and cutting ----------------------------------------------

/// `s` without its longest prefix of characters of `class`.
pub open spec fn trim_start(s: Seq<char>, class: CharClass) -> Seq<char>
    decreases s.len(),
{
    if s.len() > 0 && class.has(s[0]) {
        trim_start(s.skip(1), class)
    } else {
        s
    }
}

/// `s` without its longest suffix of characters of `class`.
pub open spec fn trim_end(s: Seq<char>, class: CharClass) -> Seq<char>
    decreases s.len(),
{
    if s.len() > 0 && class.has(s.last()) {
        trim_end(s.drop_last(), class)
    } else {
        s
    }
}

/// `s` stripped of `class` at both ends.
pub open spec fn trim_class(s: Seq<char>, class: CharClass) -> Seq<char> {
    trim_end(trim_start(s, class), class)
}

/// `s` stripped of white space at both ends.
pub open spec fn trim(s: Seq<char>) -> Seq<char> {
    trim_class(s, CharClass::WhiteSpace)
}

/// The index of the first character of `class` in `s`, or the length of `s` where
/// there is none.
pub open spec fn first_in(s: Seq<char>, class: CharClass) -> int
    decreases s.len(),
{
    if s.len() == 0 || class.has(s[0]) {
        0
    } else {
        1 + first_in(s.skip(1), class)
    }
}

/// What stands before the first character of `class`; all of `s` where there is none.
pub open spec fn before_first(s: Seq<char>, class: CharClass) -> Seq<char> {
    s.take(first_in(s, class))
}

/// What stands behind the first character of `class`; nothing where there is none.
pub open spec fn after_first(s: Seq<char>, class: CharClass) -> Seq<char> {
    if first_in(s, class) < s.len() {
        s.skip(first_in(s, class) + 1)
    } else {
        Seq::empty()
    }
}

pub proof fn lemma_first_in_is_first(s: Seq<char>, class: CharClass)
    ensures
        0 <= first_in(s, class) <= s.len(),
        first_in(s, class) < s.len() ==> class.has(s[first_in(s, class)]),
        forall|i: int| 0 <= i < first_in(s, class) ==> !class.has(#[trigger] s[i]),
    decreases s.len(),
{
    if s.len() > 0 && !class.has(s[0]) {
        lemma_first_in_is_first(s.skip(1), class);
        assert forall|i: int| 0 <= i < first_in(s, class) implies !class.has(#[trigger] s[i]) by {
            if i > 0 {
                assert(s[i] == s.skip(1)[i - 1]);
            }
        }
    }
}

/// The first index is the only one with a member of `class` and none before it.
pub proof fn lemma_first_in_unique(s: Seq<char>, class: CharClass, k: int)
    requires
        0 <= k <= s.len(),
        k < s.len() ==> class.has(s[k]),
        forall|i: int| 0 <= i < k ==> !class.has(#[trigger] s[i]),
    ensures
        first_in(s, class) == k,
{
    lemma_first_in_is_first(s, class);
    let f = first_in(s, class);
    if f < k {
        assert(!class.has(s[f]));
    } else if k < f {
        assert(!class.has(s[k]));
    }
}

/// Trimming takes characters away at the ends and leaves those between.
pub proof fn lemma_trim_is_part(s: Seq<char>, class: CharClass)
    ensures
        exists|i: int, j: int|
            0 <= i <= j <= s.len() && trim_class(s, class) == #[trigger] s.subrange(i, j),
{
    lemma_trim_start_is_part(s, class);
    let t = trim_start(s, class);
    let i = choose|i: int| 0 <= i <= s.len() && t == #[trigger] s.skip(i);
    lemma_trim_end_is_part(t, class);
    let j = choose|j: int| 0 <= j <= t.len() && trim_end(t, class) == #[trigger] t.take(j);
    assert(t.take(j) == s.subrange(i, i + j));
}

proof fn lemma_trim_start_is_part(s: Seq<char>, class: CharClass)
    ensures
        exists|i: int| 0 <= i <= s.len() && trim_start(s, class) == #[trigger] s.skip(i),
    decreases s.len(),
{
    if s.len() > 0 && class.has(s[0]) {
        lemma_trim_start_is_part(s.skip(1), class);
        let i = choose|i: int|
            0 <= i <= s.len() - 1 && trim_start(s.skip(1), class) == #[trigger] s.skip(1).skip(i);
        assert(s.skip(1).skip(i) == s.skip(i + 1));
    } else {
        assert(s.skip(0) == s);
    }
}

proof fn lemma_trim_end_is_part(s: Seq<char>, class: CharClass)
    ensures
        exists|j: int| 0 <= j <= s.len() && trim_end(s, class) == #[trigger] s.take(j),
    decreases s.len(),
{
    if s.len() > 0 && class.has(s.last()) {
        lemma_trim_end_is_part(s.drop_last(), class);
        let j = choose|j: int|
            0 <= j <= s.len() - 1 && trim_end(s.drop_last(), class)
                == #[trigger] s.drop_last().take(j);
        assert(s.drop_last().take(j) == s.take(j));
    } else {
        assert(s.take(s.len() as int) == s);
    }
}

pub fn strip_start<'a>(s: &'a [char], class: CharClass) -> (r: &'a [char])
    ensures
        r@ == trim_start(s@, class),
{
    let mut i: usize = 0;
    assert(s@.skip(0) == s@);
    while i < s.len() && class.contains(s[i])
        invariant
            i <= s@.len(),
            trim_start(s@.skip(i as int), class) == trim_start(s@, class),
        decreases s@.len() - i,
    {
        assert(s@.skip(i as int).skip(1) == s@.skip(i + 1));
        i += 1;
    }
    slice_subrange(s, i, s.len())
}

pub fn strip_end<'a>(s: &'a [char], class: CharClass) -> (r: &'a [char])
    ensures
        r@ == trim_end(s@, class),
{
    let mut j: usize = s.len();
    assert(s@.take(j as int) == s@);
    while j > 0 && class.contains(s[j - 1])
        invariant
            j <= s@.len(),
            trim_end(s@.take(j as int), class) == trim_end(s@, class),
        decreases j,
    {
        assert(s@.take(j as int).drop_last() == s@.take(j - 1));
        j -= 1;
    }
    slice_subrange(s, 0, j)
}

pub fn strip<'a>(s: &'a [char], class: CharClass) -> (r: &'a [char])
    ensures
        r@ == trim_class(s@, class),
{
    strip_end(strip_start(s, class), class)
}

pub fn strip_space<'a>(s: &'a [char]) -> (r: &'a [char])
    ensures
        r@ == trim(s@),
{
    strip(s, CharClass::WhiteSpace)
}

pub fn find_first(s: &[char], class: CharClass) -> (r: usize)
    ensures
        r == first_in(s@, class),
        r <= s@.len(),
{
    let mut i: usize = 0;
    while i < s.len() && !class.contains(s[i])
        invariant
            i <= s@.len(),
            forall|k: int| 0 <= k < i ==> !class.has(#[trigger] s@[k]),
        decreases s@.len() - i,
    {
        i += 1;
    }
    proof {
        lemma_first_in_unique(s@, class, i as int);
    }
    i
}

/// Cuts `s` at the first character of `class`.
pub fn split_first<'a>(s: &'a [char], class: CharClass) -> (r: (&'a [char], &'a [char]))
    ensures
        r.0@ == before_first(s@, class),
        r.1@ == after_first(s@, class),
{
    let i = find_first(s, class);
    let head = slice_subrange(s, 0, i);
    if i < s.len() {
        (head, slice_subrange(s, i + 1, s.len()))
    } else {
        (head, slice_subrange(s, i, i))
    }
}

// ---- lines ----------------------------------------------------------------

/// A line without the carriage return that ended it.
pub open spec fn without_cr(s: Seq<char>) -> Seq<char> {
    if s.len() > 0 && s.last() == '\r' {
        s.drop_last()
    } else {
        s
    }
}

/// The lines of `s`. A line ends in a line feed or in a carriage return and a line
/// feed; the last one may go without, and then keeps a carriage return.
pub open spec fn lines(s: Seq<char>) -> Seq<Seq<char>>
    decreases s.len(),
{
    let n = first_in(s, CharClass::Only('\n'));
    if s.len() == 0 {
        Seq::empty()
    } else if 0 <= n < s.len() {
        seq![without_cr(s.take(n))] + lines(s.skip(n + 1))
    } else {
        seq![s]
    }
}

/// The texts of a vector of slices.
pub open spec fn slice_texts(v: Seq<&[char]>) -> Seq<Seq<char>> {
    v.map_values(|t: &[char]| t@)
}

pub fn split_lines<'a>(s: &'a [char]) -> (r: Vec<&'a [char]>)
    ensures
        slice_texts(r@) == lines(s@),
{
    let mut out: Vec<&'a [char]> = Vec::new();
    let mut rest: &'a [char] = s;
    assert(slice_texts(out@) + lines(rest@) == lines(s@));
    while rest.len() > 0
        invariant
            slice_texts(out@) + lines(rest@) == lines(s@),
        decreases rest@.len(),
    {
        let ghost before = slice_texts(out@);
        let ghost old_rest = rest@;
        let n = find_first(rest, CharClass::Only('\n'));
        let line: &'a [char];
        if n < rest.len() {
            if n > 0 && rest[n - 1] == '\r' {
                line = slice_subrange(rest, 0, n - 1);
                assert(line@ == without_cr(old_rest.take(n as int)));
            } else {
                line = slice_subrange(rest, 0, n);
                assert(line@ == without_cr(old_rest.take(n as int)));
            }
            rest = slice_subrange(rest, n + 1, rest.len());
        } else {
            line = rest;
            rest = slice_subrange(rest, n, n);
        }
        out.push(line);
        assert(lines(old_rest) == seq![line@] + lines(rest@));
        assert(slice_texts(out@) == before.push(line@));
        assert(before.push(line@) + lines(rest@) == before + (seq![line@] + lines(rest@)));
    }
    assert(slice_texts(out@) + lines(rest@) == slice_texts(out@));
    out
}

// ---- searching --------------------------------------------------------------

/// `pat` stands in `s` at index `i`.
pub open spec fn match_at(s: Seq<char>, pat: Seq<char>, i: int) -> bool {
    0 <= i && i + pat.len() <= s.len() && s.subrange(i, i + pat.len()) == pat
}

/// `pat` stands somewhere in `s`.
pub open spec fn contains(s: Seq<char>, pat: Seq<char>) -> bool {
    exists|i: int| match_at(s, pat, i)
}

/// The greatest index up to `i` at which `pat` stands in `s`, or a negative number
/// where there is none.
pub open spec fn last_match(s: Seq<char>, pat: Seq<char>, i: int) -> int
    decreases i + 1,
{
    if i < 0 || match_at(s, pat, i) {
        i
    } else {
        last_match(s, pat, i - 1)
    }
}

/// What stands behind the last `pat` in `s`; all of `s` where there is none.
pub open spec fn after_last(s: Seq<char>, pat: Seq<char>) -> Seq<char> {
    let i = last_match(s, pat, s.len() - pat.len());
    if i < 0 {
        s
    } else {
        s.skip(i + pat.len())
    }
}

pub fn stands_at(s: &[char], pat: &[char], i: usize) -> (r: bool)
    ensures
        r == match_at(s@, pat@, i as int),
{
    if i > s.len() || pat.len() > s.len() - i {
        return false;
    }
    let mut k: usize = 0;
    while k < pat.len()
        invariant
            k <= pat@.len(),
            i + pat@.len() <= s@.len() <= usize::MAX,
            forall|j: int| 0 <= j < k ==> s@[i + j] == #[trigger] pat@[j],
        decreases pat@.len() - k,
    {
        if s[i + k] != pat[k] {
            assert(s@.subrange(i as int, i + pat@.len())[k as int] != pat@[k as int]);
            return false;
        }
        k += 1;
    }
    assert(s@.subrange(i as int, i + pat@.len()) == pat@);
    true
}

pub fn has_text(s: &[char], pat: &[char]) -> (r: bool)
    ensures
        r == contains(s@, pat@),
{
    let mut i: usize = 0;
    while i < s.len()
        invariant
            i <= s@.len(),
            forall|j: int| 0 <= j < i ==> !match_at(s@, pat@, j),
        decreases s@.len() - i,
    {
        if stands_at(s, pat, i) {
            return true;
        }
        i += 1;
    }
    let r = stands_at(s, pat, i);
    assert(r == contains(s@, pat@));
    r
}

pub fn same(a: &[char], b: &[char]) -> (r: bool)
    ensures
        r == (a@ == b@),
{
    let r = a.len() == b.len() && stands_at(a, b, 0);
    assert(a@.len() == b@.len() ==> a@.subrange(0, b@.len() as int) == a@);
    r
}

pub fn behind_last<'a>(s: &'a [char], pat: &[char]) -> (r: &'a [char])
    ensures
        r@ == after_last(s@, pat@),
{
    if pat.len() > s.len() {
        return s;
    }
    let mut i: usize = s.len() - pat.len();
    loop
        invariant
            i + pat@.len() <= s@.len() <= usize::MAX,
            last_match(s@, pat@, i as int) == last_match(s@, pat@, s@.len() - pat@.len()),
        decreases i,
    {
        if stands_at(s, pat, i) {
            return slice_subrange(s, i + pat.len(), s.len());
        }
        if i == 0 {
            assert(last_match(s@, pat@, -1) == -1);
            return s;
        }
        i -= 1;
    }
}

// ---- words --------------------------------------------------------------

/// The first of the words that white space parts.
pub open spec fn first_word(s: Seq<char>) -> Option<Seq<char>> {
    let t = trim_start(s, CharClass::WhiteSpace);
    if t.len() == 0 {
        None
    } else {
        Some(before_first(t, CharClass::WhiteSpace))
    }
}

/// The longest suffix of `s` without a character of `class`.
pub open spec fn tail_outside(s: Seq<char>, class: CharClass) -> Seq<char>
    decreases s.len(),
{
    if s.len() == 0 || class.has(s.last()) {
        Seq::empty()
    } else {
        tail_outside(s.drop_last(), class).push(s.last())
    }
}

/// The last of the words that white space parts.
pub open spec fn last_word(s: Seq<char>) -> Option<Seq<char>> {
    let t = trim_end(s, CharClass::WhiteSpace);
    if t.len() == 0 {
        None
    } else {
        Some(tail_outside(t, CharClass::WhiteSpace))
    }
}

pub open spec fn opt_text(o: Option<&[char]>) -> Option<Seq<char>> {
    match o {
        Some(t) => Some(t@),
        None => None,
    }
}

pub fn word_first<'a>(s: &'a [char]) -> (r: Option<&'a [char]>)
    ensures
        opt_text(r) == first_word(s@),
{
    let t = strip_start(s, CharClass::WhiteSpace);
    if t.len() == 0 {
        None
    } else {
        Some(split_first(t, CharClass::WhiteSpace).0)
    }
}

pub fn word_last<'a>(s: &'a [char]) -> (r: Option<&'a [char]>)
    ensures
        opt_text(r) == last_word(s@),
{
    let t = strip_end(s, CharClass::WhiteSpace);
    if t.len() == 0 {
        return None;
    }
    let class = CharClass::WhiteSpace;
    let mut i: usize = t.len();
    assert(t@.take(i as int) == t@);
    assert(t@.subrange(i as int, t@.len() as int) == Seq::<char>::empty());
    while i > 0 && !class.contains(t[i - 1])
        invariant
            i <= t@.len(),
            tail_outside(t@, class) == tail_outside(t@.take(i as int), class) + t@.subrange(
                i as int,
                t@.len() as int,
            ),
        decreases i,
    {
        assert(t@.take(i as int).drop_last() == t@.take(i - 1));
        assert(tail_outside(t@.take(i - 1), class).push(t@[i - 1]) + t@.subrange(
            i as int,
            t@.len() as int,
        ) == tail_outside(t@.take(i - 1), class) + t@.subrange(i - 1, t@.len() as int));
        i -= 1;
    }
    assert(tail_outside(t@.take(i as int), class) == Seq::<char>::empty());
    Some(slice_subrange(t, i, t.len()))
}

// ---- laws ---------------------------------------------------------------

/// The apostrophe and the two angle quotes are quotes, and nothing else is; and a class of
/// one character has that one alone.
pub proof fn law_classes(c: char, d: char)
    ensures
        CharClass::Quote.has(c) <==> c == '\'' || c == '\u{ab}' || c == '\u{bb}',
        CharClass::Only(d).has(c) <==> c == d,
        CharClass::WhiteSpace.has(' '),
        CharClass::WhiteSpace.has('\t'),
        CharClass::WhiteSpace.has('\n'),
        CharClass::WhiteSpace.has('\r'),
        '!' <= c <= '~' ==> !CharClass::WhiteSpace.has(c),
{
}

/// Stripping takes away all that is of the class at the two ends, and nothing else: what
/// stands between stays whole, with what it holds of the class inside.
pub proof fn law_strip(u: Seq<char>, core: Seq<char>, v: Seq<char>, class: CharClass)
    requires
        forall|i: int| 0 <= i < u.len() ==> class.has(#[trigger] u[i]),
        forall|i: int| 0 <= i < v.len() ==> class.has(#[trigger] v[i]),
        core.len() > 0 ==> !class.has(core[0]) && !class.has(core.last()),
    ensures
        trim_class(u + core + v, class) == core,
        class == CharClass::WhiteSpace ==> trim(u + core + v) == core,
{
    if core.len() == 0 {
        let all = u + v;
        assert(u + core + v == all);
        assert forall|i: int| 0 <= i < all.len() implies class.has(#[trigger] all[i]) by {
            if i < u.len() {
                assert(class.has(u[i]));
            } else {
                assert(class.has(v[i - u.len()]));
            }
        }
        let none = Seq::<char>::empty();
        lemma_strip_start(all, none, class);
        assert(all + none == all);
        assert(trim_start(none, class) == none);
        assert(trim_end(none, class) == none);
        assert(core == none);
    } else {
        lemma_strip_start(u, core + v, class);
        assert(u + (core + v) == u + core + v);
        assert((core + v)[0] == core[0]);
        assert(trim_start(core + v, class) == core + v);
        lemma_strip_end(core, v, class);
        assert(trim_end(core, class) == core);
    }
}

proof fn lemma_strip_start(u: Seq<char>, rest: Seq<char>, class: CharClass)
    requires
        forall|i: int| 0 <= i < u.len() ==> class.has(#[trigger] u[i]),
    ensures
        trim_start(u + rest, class) == trim_start(rest, class),
    decreases u.len(),
{
    if u.len() > 0 {
        assert((u + rest)[0] == u[0]);
        assert((u + rest).skip(1) == u.skip(1) + rest);
        assert forall|i: int| 0 <= i < u.skip(1).len() implies class.has(#[trigger] u.skip(1)[i]) by {
            assert(class.has(u[i + 1]));
        }
        lemma_strip_start(u.skip(1), rest, class);
    } else {
        assert(u + rest == rest);
    }
}

proof fn lemma_strip_end(rest: Seq<char>, v: Seq<char>, class: CharClass)
    requires
        forall|i: int| 0 <= i < v.len() ==> class.has(#[trigger] v[i]),
    ensures
        trim_end(rest + v, class) == trim_end(rest, class),
    decreases v.len(),
{
    if v.len() > 0 {
        assert((rest + v).last() == v[v.len() - 1]);
        assert((rest + v).drop_last() == rest + v.drop_last());
        assert forall|i: int| 0 <= i < v.drop_last().len() implies class.has(
            #[trigger] v.drop_last()[i],
        ) by {
            assert(class.has(v[i]));
        }
        lemma_strip_end(rest, v.drop_last(), class);
    } else {
        assert(rest + v == rest);
    }
}

/// A cut at the first character of a class leaves what stands before it and what stands
/// behind it, and both whole.
pub proof fn law_cut(a: Seq<char>, c: char, b: Seq<char>, class: CharClass)
    requires
        forall|i: int| 0 <= i < a.len() ==> !class.has(#[trigger] a[i]),
        class.has(c),
    ensures
        before_first(a + seq![c] + b, class) == a,
        after_first(a + seq![c] + b, class) == b,
        before_first(a, class) == a,
        after_first(a, class) == Seq::<char>::empty(),
{
    let s = a + seq![c] + b;
    assert forall|i: int| 0 <= i < a.len() implies !class.has(#[trigger] s[i]) by {
        assert(s[i] == a[i]);
    }
    assert(s[a.len() as int] == c);
    lemma_first_in_unique(s, class, a.len() as int);
    lemma_first_in_unique(a, class, a.len() as int);
    assert(s.take(a.len() as int) == a);
    assert(s.skip((a.len() + 1) as int) == b);
    assert(a.take(a.len() as int) == a);
}

/// A text is found wherever it stands in another.
pub proof fn law_found_where_it_stands(a: Seq<char>, pat: Seq<char>, b: Seq<char>)
    ensures
        contains(a + pat + b, pat),
        match_at(a + pat + b, pat, a.len() as int),
{
    let s = a + pat + b;
    assert(s.subrange(a.len() as int, (a.len() + pat.len()) as int) == pat);
    assert(match_at(s, pat, a.len() as int));
}

/// And nowhere else.
pub proof fn law_found_only_where_it_stands(s: Seq<char>, pat: Seq<char>)
    requires
        contains(s, pat),
    ensures
        exists|a: Seq<char>, b: Seq<char>| s == #[trigger] (a + pat + b),
{
    let i = choose|i: int| match_at(s, pat, i);
    let (a, b) = (s.take(i), s.skip(i + pat.len()));
    assert(s == a + pat + b);
}

/// What stands behind the last of a text's places is what stands behind it where it stands
/// nowhere later, not even in part of itself.
pub proof fn law_behind_the_last(a: Seq<char>, pat: Seq<char>, b: Seq<char>)
    requires
        forall|i: int| a.len() < i ==> !#[trigger] match_at(a + pat + b, pat, i),
    ensures
        after_last(a + pat + b, pat) == b,
{
    let s = a + pat + b;
    law_found_where_it_stands(a, pat, b);
    lemma_last_match(s, pat, s.len() - pat.len(), a.len() as int);
    assert(s.skip((a.len() + pat.len()) as int) == b);
}

proof fn lemma_last_match(s: Seq<char>, pat: Seq<char>, i: int, at: int)
    requires
        0 <= at <= i,
        match_at(s, pat, at),
        forall|k: int| at < k ==> !#[trigger] match_at(s, pat, k),
    ensures
        last_match(s, pat, i) == at,
    decreases i,
{
    if i > at {
        assert(!match_at(s, pat, i));
        lemma_last_match(s, pat, i - 1, at);
    }
}

/// All of a text stands behind the last place of another that stands nowhere in it.
pub proof fn law_behind_none(s: Seq<char>, pat: Seq<char>)
    requires
        !contains(s, pat),
    ensures
        after_last(s, pat) == s,
{
    lemma_no_match(s, pat, s.len() - pat.len());
}

proof fn lemma_no_match(s: Seq<char>, pat: Seq<char>, i: int)
    requires
        !contains(s, pat),
    ensures
        last_match(s, pat, i) < 0,
    decreases i + 1,
{
    if i >= 0 {
        assert(!match_at(s, pat, i));
        lemma_no_match(s, pat, i - 1);
    }
}

/// The first word of a text is the first row of characters without white space in it.
pub proof fn law_first_word(u: Seq<char>, w: Seq<char>, v: Seq<char>)
    requires
        forall|i: int| 0 <= i < u.len() ==> CharClass::WhiteSpace.has(#[trigger] u[i]),
        w.len() > 0,
        forall|i: int| 0 <= i < w.len() ==> !CharClass::WhiteSpace.has(#[trigger] w[i]),
        v.len() > 0 ==> CharClass::WhiteSpace.has(v[0]),
    ensures
        first_word(u + w + v) == Some(w),
        first_word(u) is None,
{
    let class = CharClass::WhiteSpace;
    let t = w + v;
    lemma_strip_start(u, t, class);
    assert(u + t == u + w + v);
    assert(t[0] == w[0]);
    assert(trim_start(t, class) == t);
    assert forall|i: int| 0 <= i < w.len() implies !class.has(#[trigger] t[i]) by {
        assert(t[i] == w[i]);
    }
    assert(v.len() > 0 ==> t[w.len() as int] == v[0]);
    lemma_first_in_unique(t, class, w.len() as int);
    assert(t.take(w.len() as int) == w);
    let none = Seq::<char>::empty();
    lemma_strip_start(u, none, class);
    assert(u + none == u);
    assert(trim_start(none, class) == none);
}

/// The last word of a text is the last row of characters without white space in it.
pub proof fn law_last_word(u: Seq<char>, w: Seq<char>, v: Seq<char>)
    requires
        u.len() > 0 ==> CharClass::WhiteSpace.has(u.last()),
        w.len() > 0,
        forall|i: int| 0 <= i < w.len() ==> !CharClass::WhiteSpace.has(#[trigger] w[i]),
        forall|i: int| 0 <= i < v.len() ==> CharClass::WhiteSpace.has(#[trigger] v[i]),
    ensures
        last_word(u + w + v) == Some(w),
        last_word(v) is None,
{
    let class = CharClass::WhiteSpace;
    let t = u + w;
    lemma_strip_end(t, v, class);
    assert(t.last() == w[w.len() - 1]);
    assert(trim_end(t, class) == t);
    lemma_tail_outside(u, w, class);
    let none = Seq::<char>::empty();
    lemma_strip_end(none, v, class);
    assert(none + v == v);
    assert(trim_end(none, class) == none);
}

proof fn lemma_tail_outside(u: Seq<char>, w: Seq<char>, class: CharClass)
    requires
        u.len() > 0 ==> class.has(u.last()),
        forall|i: int| 0 <= i < w.len() ==> !class.has(#[trigger] w[i]),
    ensures
        tail_outside(u + w, class) == w,
    decreases w.len(),
{
    let t = u + w;
    if w.len() == 0 {
        assert(t == u);
    } else {
        assert(t.last() == w[w.len() - 1]);
        assert(t.drop_last() == u + w.drop_last());
        assert forall|i: int| 0 <= i < w.drop_last().len() implies !class.has(
            #[trigger] w.drop_last()[i],
        ) by {
            assert(!class.has(w[i]));
        }
        lemma_tail_outside(u, w.drop_last(), class);
        assert(w.drop_last().push(w.last()) == w);
    }
}

/// A line ends at its line feed, with or without a carriage return before it, and is kept
/// whole; what follows is read in the same way. The last line may go without a line feed.
pub proof fn law_lines(a: Seq<char>, rest: Seq<char>)
    requires
        forall|i: int| 0 <= i < a.len() ==> #[trigger] a[i] != '\n',
    ensures
        a.len() == 0 || a.last() != '\r' ==> lines(a + seq!['\n'] + rest) == seq![a] + lines(
            rest,
        ),
        lines(a + seq!['\r', '\n'] + rest) == seq![a] + lines(rest),
        a.len() > 0 ==> lines(a) == seq![a],
        lines(Seq::empty()) == Seq::<Seq<char>>::empty(),
{
    let end = CharClass::Only('\n');
    let s = a + seq!['\n'] + rest;
    assert forall|i: int| 0 <= i < a.len() implies !end.has(#[trigger] s[i]) by {
        assert(s[i] == a[i]);
    }
    assert(s[a.len() as int] == '\n');
    lemma_first_in_unique(s, end, a.len() as int);
    assert(s.take(a.len() as int) == a);
    assert(s.skip((a.len() + 1) as int) == rest);
    let c = a.push('\r');
    let t = a + seq!['\r', '\n'] + rest;
    assert forall|i: int| 0 <= i < c.len() implies !end.has(#[trigger] t[i]) by {
        if i < a.len() {
            assert(t[i] == a[i]);
        }
    }
    assert(t[c.len() as int] == '\n');
    lemma_first_in_unique(t, end, c.len() as int);
    assert(t.take(c.len() as int) == c);
    assert(c.drop_last() == a);
    assert(t.skip((c.len() + 1) as int) == rest);
    assert forall|i: int| 0 <= i < a.len() implies !end.has(#[trigger] a[i]) by {
        assert(a[i] != '\n');
    }
    lemma_first_in_unique(a, end, a.len() as int);
}

} // verus!
