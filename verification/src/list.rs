//! Lists in which things are found by their first place.

use vstd::prelude::*;

verus! {

/// The place of `x` in `s` where it occurs first, or the length of `s` if it does not occur.
pub open spec fn first_index<T>(s: Seq<T>, x: T) -> nat
    decreases s.len(),
{
    if s.len() == 0 || s[0] == x {
        0
    } else {
        1 + first_index(s.drop_first(), x)
    }
}

/// What [`first_index`] means.
pub proof fn lemma_first_index<T>(s: Seq<T>, x: T)
    ensures
        first_index(s, x) <= s.len(),
        s.contains(x) <==> first_index(s, x) < s.len(),
        first_index(s, x) < s.len() ==> s[first_index(s, x) as int] == x,
        forall|i: int| 0 <= i < first_index(s, x) ==> s[i] != x,
    decreases s.len(),
{
    if s.len() > 0 && s[0] != x {
        let rest = s.drop_first();
        lemma_first_index(rest, x);
        assert(forall|i: int| 0 < i < s.len() ==> s[i] == rest[i - 1]);
        if s.contains(x) {
            let i = choose|i: int| 0 <= i < s.len() && s[i] == x;
            assert(rest[i - 1] == x);
        }
    }
}

/// The place that has `x` with nothing equal before it is its first place.
pub proof fn lemma_first_index_unique<T>(s: Seq<T>, x: T, n: int)
    requires
        0 <= n <= s.len(),
        n < s.len() ==> s[n] == x,
        forall|i: int| 0 <= i < n ==> s[i] != x,
    ensures
        first_index(s, x) == n,
{
    lemma_first_index(s, x);
}

/// The list `s` with `x` at its end, unless `x` occurs in it already.
pub open spec fn with_item<T>(s: Seq<T>, x: T) -> Seq<T> {
    if s.contains(x) {
        s
    } else {
        s.push(x)
    }
}

/// Adding an item that does not occur keeps a list free of duplicates.
pub proof fn lemma_with_item<T>(s: Seq<T>, x: T)
    requires
        s.no_duplicates(),
    ensures
        with_item(s, x).no_duplicates(),
        with_item(s, x).contains(x),
        forall|y: T| #[trigger] s.contains(y) ==> with_item(s, x).contains(y),
{
    if !s.contains(x) {
        let t = s.push(x);
        assert(t[s.len() as int] == x);
        assert forall|y: T| #[trigger] s.contains(y) implies t.contains(y) by {
            let i = choose|i: int| 0 <= i < s.len() && s[i] == y;
            assert(t[i] == y);
        }
    }
}

/// An item keeps its place when another is added, and gets its place when it is added.
pub proof fn lemma_first_index_stable<T>(s: Seq<T>, x: T, y: T)
    requires
        s.contains(y) || x == y,
    ensures
        first_index(with_item(s, x), y) == first_index(s, y),
        with_item(s, x).contains(y),
{
    lemma_first_index(s, y);
    lemma_first_index(with_item(s, x), y);
    let t = with_item(s, x);
    if s.contains(y) {
        let i = choose|i: int| 0 <= i < s.len() && s[i] == y;
        assert(t[i] == y);
        lemma_first_index_unique(t, y, first_index(s, y) as int);
    } else {
        assert(t[s.len() as int] == y);
        lemma_first_index_unique(t, y, s.len() as int);
    }
}

/// Returns a copy of a list.
pub(crate) fn copied<T: Copy>(items: &Vec<T>) -> (r: Vec<T>)
    ensures
        r@ == items@,
{
    let mut r: Vec<T> = Vec::new();
    let mut i: usize = 0;
    while i < items.len()
        invariant
            i <= items@.len(),
            r@ == items@.take(i as int),
        decreases items@.len() - i,
    {
        r.push(items[i]);
        i = i + 1;
        assert(r@ =~= items@.take(i as int));
    }
    assert(r@ =~= items@);
    r
}

} // verus!
