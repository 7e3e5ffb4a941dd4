//! Facts about sequences.
use vstd::prelude::*;

verus! {

/// Filtering commutes with appending one item.
pub proof fn lemma_filter_push<A>(s: Seq<A>, x: A, f: spec_fn(A) -> bool)
    ensures
        s.push(x).filter(f) == if f(x) {
            s.filter(f).push(x)
        } else {
            s.filter(f)
        },
{
    reveal(Seq::filter);
    assert(s.push(x).drop_last() == s);
}

/// What filtering keeps.
pub proof fn lemma_filter_contains<A>(s: Seq<A>, x: A, f: spec_fn(A) -> bool)
    ensures
        s.filter(f).contains(x) <==> s.contains(x) && f(x),
    decreases s.len(),
{
    reveal(Seq::filter);
    if s.len() > 0 {
        let t = s.drop_last();
        lemma_filter_contains(t, x, f);
        assert(s == t.push(s.last()));
        lemma_filter_push(t, s.last(), f);
        lemma_push_contains(t, s.last(), x);
        lemma_push_contains(t.filter(f), s.last(), x);
    }
}

/// What a list with one item added contains.
pub proof fn lemma_push_contains<A>(s: Seq<A>, x: A, y: A)
    ensures
        s.push(x).contains(y) <==> s.contains(y) || y == x,
{
    if s.contains(y) {
        let k = choose|k: int| 0 <= k < s.len() && s[k] == y;
        assert(s.push(x)[k] == y);
    }
    assert(s.push(x)[s.len() as int] == x);
    if s.push(x).contains(y) && y != x {
        let k = choose|k: int| 0 <= k < s.push(x).len() && s.push(x)[k] == y;
        assert(s[k] == y);
    }
}

/// Where the first item of a class stands.
pub open spec fn first_where<A>(s: Seq<A>, f: spec_fn(A) -> bool) -> Option<int>
    decreases s.len(),
{
    if s.len() == 0 {
        None
    } else {
        match first_where(s.drop_last(), f) {
            Some(i) => Some(i),
            None => if f(s.last()) {
                Some(s.len() - 1)
            } else {
                None
            },
        }
    }
}

/// The first item of a class is the one before which none is of it.
pub proof fn lemma_first_where<A>(s: Seq<A>, f: spec_fn(A) -> bool)
    ensures
        match first_where(s, f) {
            Some(i) => 0 <= i < s.len() && f(s[i]) && forall|j: int| 0 <= j < i ==> !f(#[trigger] s[j]),
            None => forall|j: int| 0 <= j < s.len() ==> !f(#[trigger] s[j]),
        },
    decreases s.len(),
{
    if s.len() > 0 {
        let t = s.drop_last();
        lemma_first_where(t, f);
        assert forall|j: int| 0 <= j < t.len() implies t[j] == s[j] by {}
        match first_where(t, f) {
            Some(i) => {
                assert forall|j: int| 0 <= j < i implies !f(#[trigger] s[j]) by {
                    assert(!f(t[j]));
                }
            },
            None => {
                assert forall|j: int| 0 <= j < t.len() implies !f(#[trigger] s[j]) by {
                    assert(!f(t[j]));
                }
            },
        }
    }
}

/// What makes an item the first of a class.
pub proof fn lemma_is_first<A>(s: Seq<A>, f: spec_fn(A) -> bool, i: int)
    requires
        0 <= i < s.len(),
        f(s[i]),
        forall|j: int| 0 <= j < i ==> !f(#[trigger] s[j]),
    ensures
        first_where(s, f) == Some(i),
{
    lemma_first_where(s, f);
}

/// What makes a class empty.
pub proof fn lemma_none_is_first<A>(s: Seq<A>, f: spec_fn(A) -> bool)
    requires
        forall|j: int| 0 <= j < s.len() ==> !f(#[trigger] s[j]),
    ensures
        first_where(s, f) is None,
{
    lemma_first_where(s, f);
}

/// The first item of a class is found whatever follows it, and an item before it that is
/// of the class takes its place.
pub proof fn law_first_items_come_first<A>(s: Seq<A>, x: A, f: spec_fn(A) -> bool)
    ensures
        first_where(Seq::<A>::empty(), f) is None,
        first_where(s, f) is Some ==> first_where(s.push(x), f) == first_where(s, f),
        first_where(s, f) is None ==> first_where(s.push(x), f) == if f(x) {
            Some(s.len() as int)
        } else {
            None
        },
{
    assert(s.push(x).drop_last() =~= s);
}

} // verus!
