//! The order of texts, and a stable sort by name.

use vstd::prelude::*;

use crate::stamp::{
    is_newer, lemma_newer_asymmetric, lemma_newer_total, lemma_newer_transitive, newer,
};

verus! {

/// `a` stands before `b` in the order of their characters, first to last.
pub open spec fn text_less(a: Seq<char>, b: Seq<char>) -> bool
    decreases b.len(),
{
    if b.len() == 0 {
        false
    } else if a.len() == 0 {
        true
    } else {
        a[0] < b[0] || (a[0] == b[0] && text_less(a.skip(1), b.skip(1)))
    }
}

pub proof fn lemma_text_less_irreflexive(a: Seq<char>)
    ensures
        !text_less(a, a),
    decreases a.len(),
{
    if a.len() > 0 {
        lemma_text_less_irreflexive(a.skip(1));
    }
}

pub proof fn lemma_text_less_transitive(a: Seq<char>, b: Seq<char>, c: Seq<char>)
    requires
        text_less(a, b),
        text_less(b, c),
    ensures
        text_less(a, c),
    decreases c.len(),
{
    if a.len() > 0 && a[0] == b[0] && b[0] == c[0] {
        lemma_text_less_transitive(a.skip(1), b.skip(1), c.skip(1));
    }
}

pub proof fn lemma_text_less_total(a: Seq<char>, b: Seq<char>)
    ensures
        text_less(a, b) || text_less(b, a) || a == b,
    decreases a.len(),
{
    if a.len() > 0 && b.len() > 0 {
        if a[0] == b[0] {
            lemma_text_less_total(a.skip(1), b.skip(1));
            if a.skip(1) == b.skip(1) {
                assert(a == seq![a[0]] + a.skip(1));
                assert(b == seq![b[0]] + b.skip(1));
            }
        }
    } else {
        assert(a.len() == 0 && b.len() == 0 ==> a == b);
    }
}

/// What two texts start with in common does not count.
pub proof fn law_common_start_does_not_count(start: Seq<char>, a: Seq<char>, b: Seq<char>)
    ensures
        text_less(start + a, start + b) == text_less(a, b),
    decreases start.len(),
{
    if start.len() == 0 {
        assert(start + a == a);
        assert(start + b == b);
    } else {
        law_common_start_does_not_count(start.skip(1), a, b);
        assert((start + a).skip(1) == start.skip(1) + a);
        assert((start + b).skip(1) == start.skip(1) + b);
    }
}

pub fn is_text_less(a: &[char], b: &[char]) -> (r: bool)
    ensures
        r == text_less(a@, b@),
{
    let mut i: usize = 0;
    assert(a@.skip(0) == a@);
    assert(b@.skip(0) == b@);
    while i < a.len() && i < b.len() && a[i] == b[i]
        invariant
            i <= a@.len(),
            i <= b@.len(),
            text_less(a@, b@) == text_less(a@.skip(i as int), b@.skip(i as int)),
        decreases a@.len() - i,
    {
        assert(a@.skip(i as int).skip(1) == a@.skip(i + 1));
        assert(b@.skip(i as int).skip(1) == b@.skip(i + 1));
        i += 1;
    }
    if i >= b.len() {
        false
    } else if i >= a.len() {
        true
    } else {
        a[i] < b[i]
    }
}

/// Something with a name to sort by.
pub trait Named: Sized {
    spec fn key(&self) -> Seq<char>;

    fn key_chars(&self) -> (r: Vec<char>)
        ensures
            r@ == self.key(),
    ;
}

/// What a sort by name goes by.
#[derive(Clone, Copy, Debug, PartialEq, Eq, Structural)]
pub enum NameOrder {
    /// The order of the names as texts.
    Alphabetical,
    /// The timestamps in the names, the newest first.
    NewestFirst,
}

/// `a` has to stand before `b`.
pub open spec fn goes_before(a: Seq<char>, b: Seq<char>, order: NameOrder) -> bool {
    match order {
        NameOrder::Alphabetical => text_less(a, b),
        NameOrder::NewestFirst => newer(a, b),
    }
}

/// Nothing stands behind something that it has to stand before.
pub open spec fn sorted<T: Named>(s: Seq<T>, order: NameOrder) -> bool {
    forall|i: int, j: int|
        0 <= i < j < s.len() ==> !goes_before((#[trigger] s[j]).key(), (#[trigger] s[i]).key(), order)
}

/// The items of a name, in their order.
pub open spec fn named<T: Named>(s: Seq<T>, name: Seq<char>) -> Seq<T> {
    s.filter(|t: T| t.key() == name)
}

/// `r` holds the items of `s`, those of one name in the order they had.
pub open spec fn stable_rearrangement<T: Named>(s: Seq<T>, r: Seq<T>) -> bool {
    &&& r.len() == s.len()
    &&& forall|name: Seq<char>| #[trigger] named(r, name) == named(s, name)
}

proof fn lemma_goes_before(a: Seq<char>, b: Seq<char>, c: Seq<char>, order: NameOrder)
    ensures
        goes_before(a, b, order) ==> !goes_before(b, a, order),
        !goes_before(b, a, order) && !goes_before(c, b, order) ==> !goes_before(c, a, order),
        goes_before(a, b, order) ==> a != b,
{
    lemma_goes_before_total(a, b, order);
    lemma_goes_before_total(b, c, order);
    if goes_before(a, b, order) {
        lemma_goes_before_asymmetric(a, b, order);
    }
    if goes_before(c, a, order) {
        lemma_goes_before_asymmetric(c, a, order);
        if goes_before(a, b, order) {
            lemma_goes_before_transitive(c, a, b, order);
        }
    }
}

proof fn lemma_goes_before_asymmetric(a: Seq<char>, b: Seq<char>, order: NameOrder)
    requires
        goes_before(a, b, order),
    ensures
        !goes_before(b, a, order),
        a != b,
{
    match order {
        NameOrder::Alphabetical => {
            lemma_text_less_irreflexive(a);
            if text_less(b, a) {
                lemma_text_less_transitive(a, b, a);
            }
        },
        NameOrder::NewestFirst => lemma_newer_asymmetric(a, b),
    }
}

proof fn lemma_goes_before_transitive(a: Seq<char>, b: Seq<char>, c: Seq<char>, order: NameOrder)
    requires
        goes_before(a, b, order),
        goes_before(b, c, order),
    ensures
        goes_before(a, c, order),
{
    match order {
        NameOrder::Alphabetical => lemma_text_less_transitive(a, b, c),
        NameOrder::NewestFirst => lemma_newer_transitive(a, b, c),
    }
}

proof fn lemma_goes_before_total(a: Seq<char>, b: Seq<char>, order: NameOrder)
    ensures
        goes_before(a, b, order) || goes_before(b, a, order) || a == b,
{
    match order {
        NameOrder::Alphabetical => lemma_text_less_total(a, b),
        NameOrder::NewestFirst => lemma_newer_total(a, b),
    }
}

proof fn lemma_no_such_name<T: Named>(s: Seq<T>, name: Seq<char>)
    requires
        forall|i: int| 0 <= i < s.len() ==> (#[trigger] s[i]).key() != name,
    ensures
        named(s, name) == Seq::<T>::empty(),
    decreases s.len(),
{
    reveal(Seq::filter);
    if s.len() > 0 {
        lemma_no_such_name(s.drop_last(), name);
    }
}

/// Putting `x` before its equals and behind what has to stand before it.
proof fn lemma_insert<T: Named>(s: Seq<T>, x: T, p: int, order: NameOrder)
    requires
        sorted(s, order),
        0 <= p <= s.len(),
        forall|i: int| 0 <= i < p ==> goes_before((#[trigger] s[i]).key(), x.key(), order),
        p < s.len() ==> !goes_before(s[p].key(), x.key(), order),
    ensures
        sorted(s.insert(p, x), order),
        forall|name: Seq<char>| #[trigger]
            named(s.insert(p, x), name) == named(seq![x], name) + named(s, name),
{
    let t = s.insert(p, x);
    assert forall|i: int, j: int| 0 <= i < j < t.len() implies !goes_before(
        (#[trigger] t[j]).key(),
        (#[trigger] t[i]).key(),
        order,
    ) by {
        let si = if i < p {
            s[i]
        } else {
            s[i - 1]
        };
        let sj = if j < p {
            s[j]
        } else {
            s[j - 1]
        };
        if j == p {
            assert(goes_before(s[i].key(), x.key(), order));
            lemma_goes_before(s[i].key(), x.key(), x.key(), order);
        } else if i == p {
            assert(t[j] == s[j - 1]);
            if j - 1 > p {
                assert(!goes_before(s[j - 1].key(), s[p].key(), order));
                lemma_goes_before(x.key(), s[p].key(), s[j - 1].key(), order);
            }
        } else {
            assert(t[i] == si && t[j] == sj);
        }
    }
    assert forall|name: Seq<char>| #[trigger]
        named(t, name) == named(seq![x], name) + named(s, name) by {
        let pred = |u: T| u.key() == name;
        let a = s.take(p);
        let b = s.skip(p);
        assert(s == a + b);
        assert(t == (a + seq![x]) + b);
        Seq::filter_distributes_over_add(a, b, pred);
        Seq::filter_distributes_over_add(a + seq![x], b, pred);
        Seq::filter_distributes_over_add(a, seq![x], pred);
        if x.key() == name {
            assert forall|i: int| 0 <= i < a.len() implies (#[trigger] a[i]).key() != name by {
                assert(goes_before(s[i].key(), x.key(), order));
                lemma_goes_before(s[i].key(), x.key(), x.key(), order);
            }
            lemma_no_such_name(a, name);
            assert(named(a, name) == Seq::<T>::empty());
            assert(Seq::<T>::empty() + named(seq![x], name) == named(seq![x], name));
            assert(Seq::<T>::empty() + named(b, name) == named(b, name));
        } else {
            lemma_no_such_name(seq![x], name);
            assert(named(a, name) + Seq::<T>::empty() == named(a, name));
            assert(Seq::<T>::empty() + named(s, name) == named(s, name));
        }
    }
}

proof fn lemma_named_front<T: Named>(s: Seq<T>, name: Seq<char>)
    requires
        s.len() > 0,
    ensures
        s[0].key() == name ==> named(s, name) == seq![s[0]] + named(s.skip(1), name),
        s[0].key() != name ==> named(s, name) == named(s.skip(1), name),
{
    let pred = |u: T| u.key() == name;
    let front = seq![s[0]];
    assert(s == front + s.skip(1));
    Seq::filter_distributes_over_add(front, s.skip(1), pred);
    if s[0].key() == name {
        reveal(Seq::filter);
        assert(front.drop_last() == Seq::<T>::empty());
        assert(front.drop_last().filter(pred) == Seq::<T>::empty());
        assert(front.filter(pred) == front);
    } else {
        lemma_no_such_name(front, name);
        assert(Seq::<T>::empty() + named(s.skip(1), name) == named(s.skip(1), name));
    }
}

/// Where the items of a name are some, one of them stands in the sequence.
proof fn lemma_named_somewhere<T: Named>(s: Seq<T>, name: Seq<char>)
    requires
        named(s, name).len() > 0,
    ensures
        exists|i: int| 0 <= i < s.len() && (#[trigger] s[i]).key() == name,
{
    if forall|i: int| 0 <= i < s.len() ==> (#[trigger] s[i]).key() != name {
        lemma_no_such_name(s, name);
    }
}

/// The first items of two sorted rearrangements of one sequence are of one name.
proof fn lemma_first_names<T: Named>(a: Seq<T>, b: Seq<T>, order: NameOrder)
    requires
        a.len() > 0,
        b.len() > 0,
        sorted(b, order),
        forall|name: Seq<char>| #[trigger] named(a, name) == named(b, name),
    ensures
        !goes_before(a[0].key(), b[0].key(), order),
{
    let k = a[0].key();
    lemma_named_front(a, k);
    assert(named(b, k).len() > 0);
    lemma_named_somewhere(b, k);
    let j = choose|j: int| 0 <= j < b.len() && (#[trigger] b[j]).key() == k;
    if j == 0 {
        lemma_goes_before(k, k, k, order);
    } else {
        assert(!goes_before(b[j].key(), b[0].key(), order));
    }
}

/// There is one way to sort by name, in either order, and keep the items of a name in their order.
pub proof fn law_stable_sort_is_determined<T: Named>(
    s: Seq<T>,
    a: Seq<T>,
    b: Seq<T>,
    order: NameOrder,
)
    requires
        sorted(a, order),
        sorted(b, order),
        stable_rearrangement(s, a),
        stable_rearrangement(s, b),
    ensures
        a == b,
{
    assert forall|name: Seq<char>| #[trigger] named(a, name) == named(b, name) by {
        assert(named(a, name) == named(s, name));
        assert(named(b, name) == named(s, name));
    }
    lemma_same_names_same_order(a, b, order);
}

proof fn lemma_same_names_same_order<T: Named>(a: Seq<T>, b: Seq<T>, order: NameOrder)
    requires
        sorted(a, order),
        sorted(b, order),
        a.len() == b.len(),
        forall|name: Seq<char>| #[trigger] named(a, name) == named(b, name),
    ensures
        a == b,
    decreases a.len(),
{
    if a.len() > 0 {
        assert forall|name: Seq<char>| #[trigger] named(b, name) == named(a, name) by {
            assert(named(a, name) == named(b, name));
        }
        lemma_first_names(a, b, order);
        lemma_first_names(b, a, order);
        lemma_goes_before_total(a[0].key(), b[0].key(), order);
        let k = a[0].key();
        assert(b[0].key() == k);
        assert(named(a, k) == named(b, k));
        lemma_named_front(a, k);
        lemma_named_front(b, k);
        assert(named(a, k)[0] == a[0] && named(b, k)[0] == b[0]);
        let ra = a.skip(1);
        let rb = b.skip(1);
        assert forall|name: Seq<char>| #[trigger] named(ra, name) == named(rb, name) by {
            assert(named(a, name) == named(b, name));
            lemma_named_front(a, name);
            lemma_named_front(b, name);
            if name == k {
                assert(named(a, name).skip(1) == named(ra, name));
                assert(named(b, name).skip(1) == named(rb, name));
            }
        }
        lemma_same_names_same_order(ra, rb, order);
        assert(a == seq![a[0]] + ra);
        assert(b == seq![b[0]] + rb);
    } else {
        assert(a == b);
    }
}

/// The items of `s` sorted by name, those of one name in the order they had.
pub open spec fn by_name<T: Named>(s: Seq<T>, order: NameOrder) -> Seq<T> {
    choose|r: Seq<T>| sorted(r, order) && stable_rearrangement(s, r)
}

/// Sorts by name. The sort is stable: items of one name keep their order.
pub fn sort_named<T: Named>(items: Vec<T>, order: NameOrder) -> (r: Vec<T>)
    ensures
        sorted(r@, order),
        stable_rearrangement(items@, r@),
        r@ == by_name(items@, order),
{
    let mut rest: Vec<T> = items;
    let mut out: Vec<T> = Vec::new();
    proof {
        assert forall|name: Seq<char>| #[trigger]
            named(rest@, name) + named(out@, name) == named(items@, name) by {
            lemma_no_such_name(out@, name);
        }
    }
    while rest.len() > 0
        invariant
            sorted(out@, order),
            rest@.len() + out@.len() == items@.len(),
            forall|name: Seq<char>| #[trigger]
                named(rest@, name) + named(out@, name) == named(items@, name),
        decreases rest@.len(),
    {
        let ghost rest0 = rest@;
        let ghost out0 = out@;
        if let Some(x) = rest.pop() {
            let name = x.key_chars();
            let mut p: usize = 0;
            while p < out.len() && before(&out[p], &name, order)
                invariant
                    p <= out@.len(),
                    out@ == out0,
                    name@ == x.key(),
                    forall|i: int|
                        0 <= i < p ==> goes_before((#[trigger] out@[i]).key(), x.key(), order),
                decreases out@.len() - p,
            {
                p += 1;
            }
            proof {
                lemma_insert(out@, x, p as int, order);
            }
            out.insert(p, x);
            proof {
                assert(rest0 == rest@ + seq![x]);
                assert forall|n: Seq<char>| #[trigger]
                    named(rest@, n) + named(out@, n) == named(items@, n) by {
                    Seq::filter_distributes_over_add(rest@, seq![x], |u: T| u.key() == n);
                    assert(named(rest0, n) == named(rest@, n) + named(seq![x], n));
                    assert(named(rest0, n) + named(out0, n) == named(items@, n));
                    assert(named(out@, n) == named(seq![x], n) + named(out0, n));
                    assert(named(rest@, n) + (named(seq![x], n) + named(out0, n)) == (named(
                        rest@,
                        n,
                    ) + named(seq![x], n)) + named(out0, n));
                }
            }
        }
    }
    proof {
        assert forall|name: Seq<char>| #[trigger] named(out@, name) == named(items@, name) by {
            lemma_no_such_name(rest@, name);
            assert(named(rest@, name) + named(out@, name) == named(items@, name));
            assert(Seq::<T>::empty() + named(out@, name) == named(out@, name));
        }
        law_stable_sort_is_determined(items@, out@, by_name(items@, order), order);
    }
    out
}

fn before<T: Named>(a: &T, name: &Vec<char>, order: NameOrder) -> (r: bool)
    ensures
        r == goes_before(a.key(), name@, order),
{
    let k = a.key_chars();
    match order {
        NameOrder::Alphabetical => is_text_less(k.as_slice(), name.as_slice()),
        NameOrder::NewestFirst => is_newer(k.as_slice(), name.as_slice()),
    }
}

// ---- laws -------------------------------------------------------------------------

/// The first characters in which two texts differ decide their order, whatever follows; and
/// a text stands before every other that starts with it.
pub proof fn law_first_difference_decides(
    start: Seq<char>,
    x: char,
    a: Seq<char>,
    y: char,
    b: Seq<char>,
)
    requires
        x < y,
    ensures
        text_less(start + seq![x] + a, start + seq![y] + b),
        !text_less(start + seq![y] + b, start + seq![x] + a),
        text_less(start, start + seq![x] + a),
        !text_less(start + seq![x] + a, start),
{
    let none = Seq::<char>::empty();
    let (p, q) = (seq![x] + a, seq![y] + b);
    assert(start + p == start + seq![x] + a);
    assert(start + q == start + seq![y] + b);
    assert(start + none == start);
    law_common_start_does_not_count(start, p, q);
    law_common_start_does_not_count(start, q, p);
    law_common_start_does_not_count(start, none, p);
    law_common_start_does_not_count(start, p, none);
}

/// In what is sorted, no name stands behind a greater one; and in what is newest first, none
/// stands behind that of an older session.
pub proof fn law_sorted<T: Named>(s: Seq<T>, order: NameOrder, i: int, j: int)
    requires
        sorted(s, order),
        0 <= i < j < s.len(),
    ensures
        order == NameOrder::Alphabetical ==> s[i].key() == s[j].key() || text_less(
            s[i].key(),
            s[j].key(),
        ),
        order == NameOrder::NewestFirst ==> s[i].key() == s[j].key() || newer(
            s[i].key(),
            s[j].key(),
        ),
{
    assert(!goes_before(s[j].key(), s[i].key(), order));
    lemma_goes_before_total(s[i].key(), s[j].key(), order);
}

/// A sort loses nothing and adds nothing: each item occurs in the result as often as before.
pub proof fn law_sort_keeps_items<T: Named>(s: Seq<T>, r: Seq<T>, x: T)
    requires
        stable_rearrangement(s, r),
    ensures
        r.len() == s.len(),
        r.filter(|t: T| t == x).len() == s.filter(|t: T| t == x).len(),
        s.contains(x) <==> r.contains(x),
{
    assert(named(r, x.key()) == named(s, x.key()));
    lemma_same_within_name(s, x);
    lemma_same_within_name(r, x);
    lemma_contains_counts(s, x);
    lemma_contains_counts(r, x);
}

proof fn lemma_same_within_name<T: Named>(s: Seq<T>, x: T)
    ensures
        named(s, x.key()).filter(|t: T| t == x) == s.filter(|t: T| t == x),
    decreases s.len(),
{
    reveal(Seq::filter);
    let same = |t: T| t == x;
    if s.len() > 0 {
        let head = named(s.drop_last(), x.key());
        lemma_same_within_name(s.drop_last(), x);
        if s.last().key() == x.key() {
            assert(named(s, x.key()) == head.push(s.last()));
            assert(head.push(s.last()).drop_last() == head);
        }
    }
}

proof fn lemma_contains_counts<T>(s: Seq<T>, x: T)
    ensures
        s.contains(x) <==> s.filter(|t: T| t == x).len() > 0,
    decreases s.len(),
{
    reveal(Seq::filter);
    if s.len() > 0 {
        let head = s.drop_last();
        lemma_contains_counts(head, x);
        if head.contains(x) {
            let i = choose|i: int| 0 <= i < head.len() && head[i] == x;
            assert(s[i] == x);
        }
        if s.contains(x) {
            let i = choose|i: int| 0 <= i < s.len() && s[i] == x;
            if i < head.len() {
                assert(head[i] == x);
            }
        }
        if s.last() == x {
            assert(s[s.len() - 1] == x);
        }
    }
}

/// Items of one name keep their order: the first of them stays the first, whatever else is
/// there.
pub proof fn law_items_of_a_name<T: Named>(s: Seq<T>, x: T, name: Seq<char>)
    ensures
        x.key() == name ==> named(s.push(x), name) == named(s, name).push(x),
        x.key() != name ==> named(s.push(x), name) == named(s, name),
        named(Seq::<T>::empty(), name) == Seq::<T>::empty(),
{
    reveal(Seq::filter);
    assert(s.push(x).drop_last() == s);
}

} // verus!
