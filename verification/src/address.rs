//! Textual IPv4 and IPv6 addresses.
use crate::text;
use vstd::prelude::*;
use vstd::string::StrSliceExecFns;

verus! {

/// The value of a decimal octet: one to three digits, no leading zero, at most
/// 255.
pub open spec fn octet_of(s: Seq<char>) -> Option<u32> {
    if 1 <= s.len() <= 3 && (s[0] == '0' ==> s.len() == 1) {
        match text::digits_value(s, 10) {
            Some(v) => if v <= 255 {
                Some(v as u32)
            } else {
                None
            },
            None => None,
        }
    } else {
        None
    }
}

/// The four octets of an IPv4 address in dotted form.
pub open spec fn ipv4_of(s: Seq<char>) -> Option<Seq<u32>> {
    let p = text::split_at_char(s, '.');
    if p.len() == 4 && (forall|i: int| 0 <= i < 4 ==> octet_of(#[trigger] p[i]) is Some) {
        Some(Seq::new(4, |i: int| octet_of(p[i])->0))
    } else {
        None
    }
}

/// The value of an IPv6 group: one to four hexadecimal digits.
pub open spec fn group_of(s: Seq<char>) -> Option<u32> {
    if 1 <= s.len() <= 4 {
        match text::digits_value(s, 16) {
            Some(v) => if v <= 0xffff {
                Some(v as u32)
            } else {
                None
            },
            None => None,
        }
    } else {
        None
    }
}

/// The two groups that an IPv4 address fills.
pub open spec fn ipv4_groups(octets: Seq<u32>) -> Seq<u32> {
    seq![
        (octets[0] * 256 + octets[1]) as u32,
        (octets[2] * 256 + octets[3]) as u32,
    ]
}

/// The groups of a list of pieces. Where `mixed`, the last piece may be an IPv4
/// address.
pub open spec fn pieces_of(p: Seq<Seq<char>>, mixed: bool) -> Option<Seq<u32>>
    decreases p.len(),
{
    if p.len() == 0 {
        Some(Seq::empty())
    } else {
        match pieces_of(p.drop_last(), false) {
            None => None,
            Some(g) => match (group_of(p.last()), ipv4_of(p.last())) {
                (Some(v), _) => Some(g.push(v)),
                (None, Some(o)) if mixed => Some(g + ipv4_groups(o)),
                _ => None,
            },
        }
    }
}

/// The groups of a colon-separated list, which may be empty. Where `mixed`, its
/// last piece may be an IPv4 address.
pub open spec fn groups_of(s: Seq<char>, mixed: bool) -> Option<Seq<u32>> {
    if s.len() == 0 {
        Some(Seq::empty())
    } else {
        pieces_of(text::split_at_char(s, ':'), mixed)
    }
}

/// The eight groups of an IPv6 address. Two colons in a row stand, once, for one
/// or more groups of zero.
pub open spec fn ipv6_of(s: Seq<char>) -> Option<Seq<u32>> {
    match text::find_at(s, "::"@) {
        None => match groups_of(s, true) {
            Some(g) => if g.len() == 8 {
                Some(g)
            } else {
                None
            },
            None => None,
        },
        Some(i) => match (groups_of(s.take(i), false), groups_of(s.skip(i + 2), true)) {
            (Some(a), Some(b)) => if a.len() + b.len() <= 7 {
                Some(a + Seq::new((8 - a.len() - b.len()) as nat, |k: int| 0u32) + b)
            } else {
                None
            },
            _ => None,
        },
    }
}

/// Whether `s` is an IPv4 or IPv6 address of the loopback interface.
pub open spec fn is_loopback(s: Seq<char>) -> bool {
    match ipv4_of(s) {
        Some(o) => o[0] == 127,
        None => ipv6_of(s) == Some(seq![0u32, 0, 0, 0, 0, 0, 0, 1]),
    }
}

fn octet(s: &str) -> (r: Option<u32>)
    ensures
        r == octet_of(s@),
        r matches Some(v) ==> v <= 255,
{
    let n = s.unicode_len();
    if n < 1 || n > 3 {
        return None;
    }
    if s.get_char(0) == '0' && n != 1 {
        return None;
    }
    text::plain_number(s, 10, 255)
}

/// The four octets of an IPv4 address in dotted form.
pub fn ipv4(s: &str) -> (r: Option<Vec<u32>>)
    ensures
        match r {
            Some(o) => ipv4_of(s@) == Some(o@) && o@.len() == 4 && forall|i: int|
                0 <= i < 4 ==> #[trigger] o@[i] <= 255,
            None => ipv4_of(s@) is None,
        },
{
    let p = text::split(s, '.');
    if p.len() != 4 {
        return None;
    }
    let ghost q = text::split_at_char(s@, '.');
    let mut out: Vec<u32> = Vec::new();
    let mut i: usize = 0;
    while i < 4
        invariant
            i <= 4,
            p@.len() == 4,
            p.deep_view() == q,
            q == text::split_at_char(s@, '.'),
            out@.len() == i,
            forall|j: int|
                0 <= j < i ==> octet_of(#[trigger] q[j]) == Some(out@[j]) && out@[j] <= 255,
        decreases 4 - i,
    {
        assert(q[i as int] == p@[i as int]@);
        match octet(&p[i]) {
            Some(v) => {
                out.push(v);
            },
            None => {
                return None;
            },
        }
        i += 1;
    }
    assert(ipv4_of(s@)->0 == out@);
    Some(out)
}

fn group(s: &str) -> (r: Option<u32>)
    ensures
        r == group_of(s@),
{
    let n = s.unicode_len();
    if n < 1 || n > 4 {
        None
    } else {
        text::plain_number(s, 16, 0xffff)
    }
}

fn groups(s: &str, mixed: bool) -> (r: Option<Vec<u32>>)
    ensures
        match r {
            Some(g) => groups_of(s@, mixed) == Some(g@),
            None => groups_of(s@, mixed) is None,
        },
{
    let mut out: Vec<u32> = Vec::new();
    if s.is_empty() {
        return Some(out);
    }
    let p = text::split(s, ':');
    let ghost q = text::split_at_char(s@, ':');
    let mut i: usize = 0;
    while i < p.len()
        invariant
            i <= p@.len(),
            p.deep_view() == q,
            q == text::split_at_char(s@, ':'),
            s@.len() > 0,
            i < p@.len() ==> pieces_of(q.take(i as int), false) == Some(out@),
            i == p@.len() ==> pieces_of(q, mixed) == Some(out@),
            p@.len() > 0 || pieces_of(q, mixed) == Some(out@),
        decreases p@.len() - i,
    {
        let last = i + 1 == p.len();
        let ghost m = mixed && last;
        proof {
            assert(q.take(i + 1).drop_last() == q.take(i as int));
            assert(q.take(i + 1).last() == p@[i as int]@);
            if last {
                assert(q.take(i + 1) == q);
            } else {
                lemma_pieces_prefix(q, i + 1, mixed);
            }
        }
        match group(&p[i]) {
            Some(v) => {
                out.push(v);
            },
            None => {
                if !(mixed && last) {
                    return None;
                }
                match ipv4(&p[i]) {
                    Some(o) => {
                        let ghost before = out@;
                        out.push(o[0] * 256 + o[1]);
                        out.push(o[2] * 256 + o[3]);
                        assert(out@ == before + ipv4_groups(o@));
                    },
                    None => {
                        return None;
                    },
                }
            },
        }
        i += 1;
    }
    Some(out)
}

/// A list of pieces has groups only where each shorter list has.
proof fn lemma_pieces_prefix(p: Seq<Seq<char>>, n: int, mixed: bool)
    requires
        0 <= n < p.len(),
    ensures
        pieces_of(p, mixed) is Some ==> pieces_of(p.take(n), false) is Some,
    decreases p.len(),
{
    if n < p.len() - 1 {
        lemma_pieces_prefix(p.drop_last(), n, false);
        assert(p.drop_last().take(n) == p.take(n));
    } else {
        assert(p.drop_last() == p.take(n));
    }
}

/// The eight groups of an IPv6 address.
pub fn ipv6(s: &str) -> (r: Option<Vec<u32>>)
    ensures
        match r {
            Some(g) => ipv6_of(s@) == Some(g@),
            None => ipv6_of(s@) is None,
        },
{
    proof {
        reveal_strlit("::");
    }
    match text::find(s, "::") {
        None => match groups(s, true) {
            Some(g) => if g.len() == 8 {
                Some(g)
            } else {
                None
            },
            None => None,
        },
        Some(i) => {
            let n = s.unicode_len();
            assert(s@.subrange(0, i as int) == s@.take(i as int));
            assert(s@.subrange(i + 2, n as int) == s@.skip(i + 2));
            let a = groups(s.substring_char(0, i), false);
            let b = groups(s.substring_char(i + 2, n), true);
            match (a, b) {
                (Some(mut a), Some(mut b)) => {
                    if a.len() > 7 || b.len() > 7 - a.len() {
                        return None;
                    }
                    let ghost x = a@;
                    let ghost y = b@;
                    let ghost zeros = Seq::new((8 - x.len() - y.len()) as nat, |k: int| 0u32);
                    let gap: usize = 8 - a.len() - b.len();
                    let mut k: usize = 0;
                    while k < gap
                        invariant
                            k <= gap,
                            a@ == x + zeros.take(k as int),
                            gap == zeros.len(),
                            zeros == Seq::new((8 - x.len() - y.len()) as nat, |k: int| 0u32),
                        decreases gap - k,
                    {
                        a.push(0);
                        k += 1;
                    }
                    assert(zeros.take(k as int) == zeros);
                    a.append(&mut b);
                    Some(a)
                },
                _ => None,
            }
        },
    }
}

/// Whether `s` is an IPv4 or IPv6 address of the loopback interface.
pub fn loopback(s: &str) -> (r: bool)
    ensures
        r == is_loopback(s@),
{
    match ipv4(s) {
        Some(o) => o[0] == 127,
        None => match ipv6(s) {
            Some(g) => {
                let ghost one = seq![0u32, 0, 0, 0, 0, 0, 0, 1];
                let r = g.len() == 8 && g[0] == 0 && g[1] == 0 && g[2] == 0 && g[3] == 0 && g[4]
                    == 0 && g[5] == 0 && g[6] == 0 && g[7] == 1;
                proof {
                    if r {
                        assert(g@ == one);
                    } else if g@ == one {
                        assert(one[0] == 0 && one[1] == 0 && one[2] == 0 && one[3] == 0 && one[4]
                            == 0 && one[5] == 0 && one[6] == 0 && one[7] == 1);
                    }
                }
                r
            },
            None => false,
        },
    }
}

// ---------------------------------------------------------------------------
// Laws
// ---------------------------------------------------------------------------
/// An octet has one to three decimal digits, no leading zero, and is at most 255; a
/// group has one to four hexadecimal digits.
pub proof fn law_octets_and_groups(s: Seq<char>, v: u32)
    ensures
        octet_of(s) == Some(v) <==> 1 <= s.len() <= 3 && text::digits_value(s, 10) == Some(v as nat)
            && v <= 255 && (s[0] != '0' || s.len() == 1),
        group_of(s) == Some(v) <==> 1 <= s.len() <= 4 && text::digits_value(s, 16) == Some(v as nat)
            && v <= 0xffff,
{
}

/// An IPv4 address is four octets between dots, and nothing else is one.
pub proof fn law_ipv4_addresses(s: Seq<char>, o: Seq<u32>)
    requires
        o.len() == 4,
    ensures
        ({
            let p = text::split_at_char(s, '.');
            &&& ipv4_of(s) == Some(o) <==> p.len() == 4 && octet_of(p[0]) == Some(o[0]) && octet_of(
                p[1],
            ) == Some(o[1]) && octet_of(p[2]) == Some(o[2]) && octet_of(p[3]) == Some(o[3])
            &&& ipv4_of(s) is Some <==> p.len() == 4 && octet_of(p[0]) is Some && octet_of(p[1])
                is Some && octet_of(p[2]) is Some && octet_of(p[3]) is Some
        }),
{
    let p = text::split_at_char(s, '.');
    if p.len() == 4 && octet_of(p[0]) is Some && octet_of(p[1]) is Some && octet_of(p[2]) is Some
        && octet_of(p[3]) is Some {
        assert(forall|i: int| 0 <= i < 4 ==> octet_of(#[trigger] p[i]) is Some);
        let r = ipv4_of(s)->0;
        assert(r[0] == octet_of(p[0])->0 && r[1] == octet_of(p[1])->0 && r[2] == octet_of(
            p[2],
        )->0 && r[3] == octet_of(p[3])->0);
        if octet_of(p[0]) == Some(o[0]) && octet_of(p[1]) == Some(o[1]) && octet_of(p[2]) == Some(
            o[2],
        ) && octet_of(p[3]) == Some(o[3]) {
            assert(r =~= o);
        }
    }
}

/// The groups of an address are read piece by piece; only the last piece may be an
/// IPv4 address, which makes two groups.
pub proof fn law_pieces_of_addresses(p: Seq<Seq<char>>, x: Seq<char>, mixed: bool)
    ensures
        pieces_of(Seq::<Seq<char>>::empty(), mixed) == Some(Seq::<u32>::empty()),
        pieces_of(p, false) is None ==> pieces_of(p.push(x), mixed) is None,
        pieces_of(p, false) matches Some(g) ==> {
            &&& group_of(x) matches Some(v) ==> pieces_of(p.push(x), mixed) == Some(g.push(v))
            &&& group_of(x) is None && (!mixed || ipv4_of(x) is None) ==> pieces_of(p.push(x), mixed)
                is None
            &&& group_of(x) is None && mixed ==> (ipv4_of(x) matches Some(o) ==> pieces_of(
                p.push(x),
                mixed,
            ) == Some(g + seq![(o[0] * 256 + o[1]) as u32, (o[2] * 256 + o[3]) as u32]))
        },
{
    assert(p.push(x).drop_last() =~= p);
}

/// An IPv6 address is eight groups between colons. Two colons in a row stand, at one
/// place, for as many groups of zero as are missing, at least one.
pub proof fn law_ipv6_addresses(s: Seq<char>)
    ensures
        ({
            let groups = |t: Seq<char>, mixed: bool|
                if t.len() == 0 {
                    Some(Seq::<u32>::empty())
                } else {
                    pieces_of(text::split_at_char(t, ':'), mixed)
                };
            match text::find_at(s, "::"@) {
                None => match groups(s, true) {
                    Some(g) => if g.len() == 8 {
                        ipv6_of(s) == Some(g)
                    } else {
                        ipv6_of(s) is None
                    },
                    None => ipv6_of(s) is None,
                },
                Some(i) => match (groups(s.take(i), false), groups(s.skip(i + 2), true)) {
                    (Some(a), Some(b)) => if a.len() + b.len() < 8 {
                        ipv6_of(s) matches Some(g) && g.len() == 8 && a.is_prefix_of(g)
                            && b.is_suffix_of(g) && forall|k: int|
                            a.len() <= k < 8 - b.len() ==> #[trigger] g[k] == 0
                    } else {
                        ipv6_of(s) is None
                    },
                    _ => ipv6_of(s) is None,
                },
            }
        }),
{
    if let Some(i) = text::find_at(s, "::"@) {
        if let (Some(a), Some(b)) = (groups_of(s.take(i), false), groups_of(s.skip(i + 2), true)) {
            if a.len() + b.len() < 8 {
                let g = ipv6_of(s)->0;
                assert(a =~= g.subrange(0, a.len() as int));
                assert(b =~= g.subrange(g.len() - b.len(), g.len() as int));
            }
        }
    }
}

/// The addresses of the loopback interface are those of IPv4 that start with 127, and
/// the one of IPv6 that is one.
pub proof fn law_loopback_addresses(s: Seq<char>)
    ensures
        is_loopback(s) <==> match ipv4_of(s) {
            Some(o) => o[0] == 127,
            None => ipv6_of(s) matches Some(g) && g.len() == 8 && g[7] == 1 && forall|k: int|
                0 <= k < 7 ==> #[trigger] g[k] == 0,
        },
{
    if let Some(g) = ipv6_of(s) {
        let one = seq![0u32, 0, 0, 0, 0, 0, 0, 1];
        if g.len() == 8 && g[7] == 1 && forall|k: int| 0 <= k < 7 ==> #[trigger] g[k] == 0 {
            assert(g[0] == 0 && g[1] == 0 && g[2] == 0 && g[3] == 0 && g[4] == 0 && g[5] == 0 && g[6]
                == 0);
            assert(g =~= one);
        }
    }
}

} // verus!
