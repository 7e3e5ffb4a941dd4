//! Operations on byte sequences.
use vstd::prelude::*;
use vstd::slice::slice_subrange;

verus! {

/// Whether two byte sequences are equal.
pub fn same(a: &[u8], b: &[u8]) -> (r: bool)
    ensures
        r == (a@ == b@),
{
    if a.len() != b.len() {
        return false;
    }
    let mut i: usize = 0;
    while i < a.len()
        invariant
            a@.len() == b@.len(),
            i <= a@.len(),
            forall|j: int| 0 <= j < i ==> a@[j] == b@[j],
        decreases a@.len() - i,
    {
        if a[i] != b[i] {
            assert(a@[i as int] != b@[i as int]);
            return false;
        }
        i += 1;
    }
    assert(a@ =~= b@);
    true
}

/// Whether `a` starts with `p`.
pub fn starts_with(a: &[u8], p: &[u8]) -> (r: bool)
    ensures
        r == p@.is_prefix_of(a@),
{
    if p.len() > a.len() {
        return false;
    }
    let head = slice_subrange(a, 0, p.len());
    same(head, p)
}

/// What stands before the first `b` in `s`; all of `s` where there is none.
pub open spec fn before_first(s: Seq<u8>, b: u8) -> Seq<u8>
    decreases s.len(),
{
    if s.len() == 0 || s[0] == b {
        Seq::empty()
    } else {
        seq![s[0]] + before_first(s.drop_first(), b)
    }
}

/// What stands after the last `b` in `s`; all of `s` where there is none.
pub open spec fn after_last(s: Seq<u8>, b: u8) -> Seq<u8>
    decreases s.len(),
{
    if s.len() == 0 || s.last() == b {
        Seq::empty()
    } else {
        after_last(s.drop_last(), b).push(s.last())
    }
}

/// What stands before the first `b` in `s`; all of `s` where there is none.
pub fn before(s: &[u8], b: u8) -> (r: &[u8])
    ensures
        r@ == before_first(s@, b),
{
    let mut i: usize = 0;
    assert(s@.skip(0) == s@);
    assert(s@.take(0) + before_first(s@, b) == before_first(s@, b));
    while i < s.len()
        invariant
            i <= s@.len(),
            s@.take(i as int) + before_first(s@.skip(i as int), b) == before_first(s@, b),
        decreases s@.len() - i,
    {
        if s[i] == b {
            assert(s@.take(i as int) + Seq::<u8>::empty() == s@.take(i as int));
            assert(s@.subrange(0, i as int) == s@.take(i as int));
            return slice_subrange(s, 0, i);
        }
        assert(s@.skip(i as int).drop_first() == s@.skip(i + 1));
        assert(s@.take(i as int) + (seq![s@[i as int]] + before_first(s@.skip(i + 1), b))
            == s@.take(i + 1) + before_first(s@.skip(i + 1), b));
        i += 1;
    }
    assert(s@.take(i as int) + Seq::<u8>::empty() == s@);
    s
}

/// What stands after the last `b` in `s`; all of `s` where there is none.
pub fn after(s: &[u8], b: u8) -> (r: &[u8])
    ensures
        r@ == after_last(s@, b),
{
    let mut i: usize = s.len();
    assert(s@.take(i as int) == s@);
    assert(after_last(s@, b) + s@.skip(i as int) == after_last(s@, b));
    while i > 0
        invariant
            i <= s@.len(),
            after_last(s@.take(i as int), b) + s@.skip(i as int) == after_last(s@, b),
        decreases i,
    {
        if s[i - 1] == b {
            assert(Seq::<u8>::empty() + s@.skip(i as int) == s@.skip(i as int));
            assert(s@.subrange(i as int, s@.len() as int) == s@.skip(i as int));
            return slice_subrange(s, i, s.len());
        }
        assert(s@.take(i as int).drop_last() == s@.take(i - 1));
        assert(after_last(s@.take(i - 1), b).push(s@[i - 1]) + s@.skip(i as int) == after_last(
            s@.take(i - 1),
            b,
        ) + s@.skip(i - 1));
        i -= 1;
    }
    assert(Seq::<u8>::empty() + s@.skip(0) == s@);
    s
}

/// Whether a line starts at index `i` of `s`.
pub open spec fn line_starts(s: Seq<u8>, i: int) -> bool {
    i == 0 || s[i - 1] == 10
}

/// Whether some line of `s` starts with `p`.
pub open spec fn some_line_starts(s: Seq<u8>, p: Seq<u8>) -> bool {
    exists|i: int|
        0 <= i <= s.len() && line_starts(s, i) && p.is_prefix_of(#[trigger] s.skip(i))
}

/// Whether some line of `s` starts with `p`.
pub fn line_with(s: &[u8], p: &[u8]) -> (r: bool)
    ensures
        r == some_line_starts(s@, p@),
{
    let mut i: usize = 0;
    loop
        invariant
            i <= s@.len(),
            forall|j: int|
                0 <= j < i && line_starts(s@, j) ==> !p@.is_prefix_of(#[trigger] s@.skip(j)),
        decreases s@.len() - i,
    {
        if i == 0 || s[i - 1] == 10 {
            assert(s@.subrange(i as int, s@.len() as int) == s@.skip(i as int));
            if starts_with(slice_subrange(s, i, s.len()), p) {
                return true;
            }
        }
        if i == s.len() {
            return false;
        }
        i += 1;
    }
}

/// What stands before the first `b`, and what stands after the last one, hold none,
/// and are all where there is none.
pub proof fn law_bytes_are_parted(s: Seq<u8>, b: u8)
    ensures
        !before_first(s, b).contains(b),
        !after_last(s, b).contains(b),
        !s.contains(b) ==> before_first(s, b) == s && after_last(s, b) == s,
        s.contains(b) ==> (before_first(s, b) + seq![b]).is_prefix_of(s),
        s.contains(b) ==> (seq![b] + after_last(s, b)).is_suffix_of(s),
    decreases s.len(),
{
    lemma_before_first(s, b);
    lemma_after_last(s, b);
}

proof fn lemma_before_first(s: Seq<u8>, b: u8)
    ensures
        !before_first(s, b).contains(b),
        !s.contains(b) ==> before_first(s, b) == s,
        s.contains(b) ==> (before_first(s, b) + seq![b]).is_prefix_of(s),
    decreases s.len(),
{
    if s.len() == 0 {
        assert(before_first(s, b) =~= s);
    } else if s[0] == b {
        assert(s.contains(b));
        assert(before_first(s, b) + seq![b] =~= s.subrange(0, 1));
    } else {
        let t = s.drop_first();
        lemma_before_first(t, b);
        let r = before_first(t, b);
        assert(before_first(s, b) =~= seq![s[0]] + r);
        assert(s =~= seq![s[0]] + t);
        if before_first(s, b).contains(b) {
            let k = choose|k: int| 0 <= k < before_first(s, b).len() && before_first(s, b)[k] == b;
            assert(r[k - 1] == b);
        }
        if s.contains(b) {
            let k = choose|k: int| 0 <= k < s.len() && s[k] == b;
            assert(t[k - 1] == b);
            assert(t.contains(b));
            let p = r + seq![b];
            assert(p =~= t.subrange(0, p.len() as int));
            assert(before_first(s, b) + seq![b] =~= seq![s[0]] + p);
            assert(s.subrange(0, (p.len() + 1) as int) =~= seq![s[0]] + t.subrange(
                0,
                p.len() as int,
            ));
        } else if t.contains(b) {
            let k = choose|k: int| 0 <= k < t.len() && t[k] == b;
            assert(s[k + 1] == b);
        }
    }
}

proof fn lemma_after_last(s: Seq<u8>, b: u8)
    ensures
        !after_last(s, b).contains(b),
        !s.contains(b) ==> after_last(s, b) == s,
        s.contains(b) ==> (seq![b] + after_last(s, b)).is_suffix_of(s),
    decreases s.len(),
{
    if s.len() == 0 {
        assert(after_last(s, b) =~= s);
    } else if s.last() == b {
        assert(s[s.len() - 1] == b);
        assert(seq![b] + after_last(s, b) =~= s.subrange(s.len() - 1, s.len() as int));
    } else {
        let t = s.drop_last();
        let x = s.last();
        lemma_after_last(t, b);
        let r = after_last(t, b);
        assert(s =~= t.push(x));
        crate::lists::lemma_push_contains(t, x, b);
        crate::lists::lemma_push_contains(r, x, b);
        if s.contains(b) {
            let p = seq![b] + r;
            assert(p =~= t.subrange(t.len() - p.len(), t.len() as int));
            assert(seq![b] + after_last(s, b) =~= p.push(x));
            assert(p.push(x) =~= s.subrange(s.len() - p.len() - 1, s.len() as int));
        }
    }
}

/// A line starts at the beginning and after every line feed: a text that follows a
/// line feed, or stands first, starts some line.
pub proof fn law_lines_start_after_line_feeds(a: Seq<u8>, p: Seq<u8>, b: Seq<u8>, s: Seq<u8>)
    ensures
        some_line_starts(p + b, p),
        some_line_starts(a + seq![10u8] + p + b, p),
        some_line_starts(s, p) ==> exists|i: int|
            0 <= i <= s.len() && (i == 0 || s[i - 1] == 10) && p.is_prefix_of(#[trigger] s.skip(i)),
{
    let x = p + b;
    assert(x.skip(0) =~= x);
    assert(p.is_prefix_of(x.skip(0)));
    assert(line_starts(x, 0));
    let y = a + seq![10u8] + p + b;
    let i = a.len() + 1;
    assert(y[i - 1] == 10);
    assert(y.skip(i as int) =~= p + b);
    assert(p.is_prefix_of(y.skip(i as int)));
    assert(line_starts(y, i as int));
}

} // verus!
