//! Text operations on Unicode scalar sequences.
//!
//! Every function here works on `&str` or `String` and is specified over the
//! sequence of scalars that the text holds.
use crate::lists;
use vstd::prelude::*;
use vstd::string::StringExecFns;
use vstd::utf8::*;

verus! {

/// `String::push` appends one scalar at the end.
pub assume_specification[ String::push ](s: &mut String, c: char)
    ensures
        final(s)@ == old(s)@.push(c),
;

/// `std::str::from_utf8` accepts exactly the byte sequences that are valid
/// UTF-8, and its text holds the scalars that they encode.
#[verifier::external_body]
pub(crate) fn utf8(bytes: &[u8]) -> (r: Option<&str>)
    ensures
        match r {
            Some(t) => valid_utf8(bytes@) && t@ == decode_utf8(bytes@),
            None => !valid_utf8(bytes@),
        },
{
    std::str::from_utf8(bytes).ok()
}

/// The text that `String::from_utf8_lossy` makes of a byte sequence.
pub uninterp spec fn lossy(bytes: Seq<u8>) -> Seq<char>;

/// `String::from_utf8_lossy` is a function of the bytes alone, and decodes valid
/// UTF-8 exactly. How many replacement scalars stand for an invalid part is left
/// unsaid.
#[verifier::external_body]
pub(crate) fn utf8_lossy(bytes: &[u8]) -> (r: String)
    ensures
        r@ == lossy(bytes@),
        valid_utf8(bytes@) ==> r@ == decode_utf8(bytes@),
{
    String::from_utf8_lossy(bytes).into_owned()
}

/// The number of bytes that `s` takes in UTF-8.
pub open spec fn byte_len(s: Seq<char>) -> nat {
    encode_utf8(s).len()
}

/// The number of bytes that `s` takes in UTF-8.
pub fn bytes_in(s: &str) -> (r: usize)
    ensures
        r == byte_len(s@),
{
    s.as_bytes().len()
}

// ---------------------------------------------------------------------------
// Scalar classes
// ---------------------------------------------------------------------------
/// The scalars with the Unicode property `White_Space`.
pub open spec fn is_space(c: char) -> bool {
    ||| '\u{9}' <= c <= '\u{d}'
    ||| c == '\u{20}'
    ||| c == '\u{85}'
    ||| c == '\u{a0}'
    ||| c == '\u{1680}'
    ||| '\u{2000}' <= c <= '\u{200a}'
    ||| c == '\u{2028}'
    ||| c == '\u{2029}'
    ||| c == '\u{202f}'
    ||| c == '\u{205f}'
    ||| c == '\u{3000}'
}

/// An ASCII decimal digit.
pub open spec fn is_digit(c: char) -> bool {
    '0' <= c <= '9'
}

/// An ASCII letter or decimal digit.
pub open spec fn is_alnum(c: char) -> bool {
    is_digit(c) || 'a' <= c <= 'z' || 'A' <= c <= 'Z'
}

/// Whether `c` has the Unicode property `White_Space`.
pub fn space(c: char) -> (r: bool)
    ensures
        r == is_space(c),
{
    ('\u{9}' <= c && c <= '\u{d}') || c == '\u{20}' || c == '\u{85}' || c == '\u{a0}' || c
        == '\u{1680}' || ('\u{2000}' <= c && c <= '\u{200a}') || c == '\u{2028}' || c == '\u{2029}'
        || c == '\u{202f}' || c == '\u{205f}' || c == '\u{3000}'
}

/// Whether `c` is an ASCII decimal digit.
pub fn digit(c: char) -> (r: bool)
    ensures
        r == is_digit(c),
{
    '0' <= c && c <= '9'
}

/// Whether `c` is an ASCII letter or digit.
pub fn alnum(c: char) -> (r: bool)
    ensures
        r == is_alnum(c),
{
    digit(c) || ('a' <= c && c <= 'z') || ('A' <= c && c <= 'Z')
}

// ---------------------------------------------------------------------------
// Scalars in and out
// ---------------------------------------------------------------------------
/// The scalars of `s`.
pub fn chars(s: &str) -> (r: Vec<char>)
    ensures
        r@ == s@,
{
    let mut out: Vec<char> = Vec::new();
    for c in it: s.chars()
        invariant
            it.seq() == s@,
            out@ == it.seq().take(it.index() as int),
    {
        out.push(c);
    }
    out
}

/// The text that holds the scalars `cs`.
pub fn text(cs: &[char]) -> (r: String)
    ensures
        r@ == cs@,
{
    let mut out = String::new();
    let mut i: usize = 0;
    while i < cs.len()
        invariant
            i <= cs@.len(),
            out@ == cs@.take(i as int),
        decreases cs@.len() - i,
    {
        out.push(cs[i]);
        i += 1;
    }
    out
}

/// Whether two texts hold the same scalars.
pub fn same(a: &str, b: &str) -> (r: bool)
    ensures
        r == (a@ == b@),
{
    let x = chars(a);
    let y = chars(b);
    if x.len() != y.len() {
        return false;
    }
    let mut i: usize = 0;
    while i < x.len()
        invariant
            x@ == a@,
            y@ == b@,
            x@.len() == y@.len(),
            i <= x@.len(),
            x@.take(i as int) == y@.take(i as int),
        decreases x@.len() - i,
    {
        if x[i] != y[i] {
            assert(a@[i as int] != b@[i as int]);
            return false;
        }
        assert(x@.take(i + 1) == x@.take(i as int).push(x@[i as int]));
        assert(y@.take(i + 1) == y@.take(i as int).push(y@[i as int]));
        i += 1;
    }
    assert(x@.take(i as int) == x@);
    assert(y@.take(i as int) == y@);
    true
}

// ---------------------------------------------------------------------------
// Splitting
// ---------------------------------------------------------------------------
/// The pieces of `s` between the scalars that satisfy `f`: one piece more than
/// there are such scalars, empty pieces kept.
pub open spec fn split_by(s: Seq<char>, f: spec_fn(char) -> bool) -> Seq<Seq<char>>
    decreases s.len(),
{
    if s.len() == 0 {
        seq![Seq::<char>::empty()]
    } else {
        let before = split_by(s.drop_last(), f);
        if f(s.last()) {
            before.push(Seq::empty())
        } else {
            before.drop_last().push(before.last().push(s.last()))
        }
    }
}

/// The class of scalars that holds `sep` alone.
pub open spec fn only(sep: char) -> spec_fn(char) -> bool {
    |c: char| c == sep
}

/// The class of white space.
pub open spec fn spaces() -> spec_fn(char) -> bool {
    |c: char| is_space(c)
}

/// The pieces of `s` between occurrences of `sep`.
pub open spec fn split_at_char(s: Seq<char>, sep: char) -> Seq<Seq<char>> {
    split_by(s, only(sep))
}

/// The class of texts that are not empty.
pub open spec fn not_empty() -> spec_fn(Seq<char>) -> bool {
    |w: Seq<char>| w.len() > 0
}

/// The non-empty pieces of `s` between white space.
pub open spec fn words_of(s: Seq<char>) -> Seq<Seq<char>> {
    split_by(s, spaces()).filter(not_empty())
}

/// `parts` joined with `sep` between neighbours.
pub open spec fn join_with(parts: Seq<Seq<char>>, sep: Seq<char>) -> Seq<char>
    decreases parts.len(),
{
    if parts.len() == 0 {
        Seq::empty()
    } else if parts.len() == 1 {
        parts[0]
    } else {
        join_with(parts.drop_last(), sep) + sep + parts.last()
    }
}

proof fn lemma_split_nonempty(s: Seq<char>, f: spec_fn(char) -> bool)
    ensures
        split_by(s, f).len() >= 1,
    decreases s.len(),
{
    if s.len() > 0 {
        lemma_split_nonempty(s.drop_last(), f);
    }
}

/// Splits `s` at each occurrence of `sep`.
pub fn split(s: &str, sep: char) -> (r: Vec<String>)
    ensures
        r.deep_view() == split_at_char(s@, sep),
{
    let cs = chars(s);
    let ghost f = only(sep);
    let mut out: Vec<String> = Vec::new();
    let mut cur = String::new();
    let mut i: usize = 0;
    while i < cs.len()
        invariant
            i <= cs@.len(),
            cs@ == s@,
            f == only(sep),
            out.deep_view().push(cur@) == split_by(s@.take(i as int), f),
        decreases cs@.len() - i,
    {
        proof {
            assert(s@.take(i + 1).drop_last() == s@.take(i as int));
            lemma_split_nonempty(s@.take(i as int), f);
        }
        let ghost before = out.deep_view();
        if cs[i] == sep {
            let ghost piece = cur@;
            out.push(cur);
            cur = String::new();
            assert(out.deep_view() == before.push(piece));
        } else {
            cur.push(cs[i]);
            assert(before.push(cur@) == split_by(s@.take(i as int), f).drop_last().push(cur@));
        }
        i += 1;
    }
    assert(s@.take(i as int) == s@);
    let ghost before = out.deep_view();
    let ghost piece = cur@;
    out.push(cur);
    assert(out.deep_view() == before.push(piece));
    out
}

/// The words of `s`: the non-empty pieces between white space.
pub fn words(s: &str) -> (r: Vec<String>)
    ensures
        r.deep_view() == words_of(s@),
{
    let cs = chars(s);
    let ghost f = spaces();
    let ghost g = not_empty();
    let mut out: Vec<String> = Vec::new();
    let ghost mut done: Seq<Seq<char>> = Seq::empty();
    let mut cur = String::new();
    let mut i: usize = 0;
    proof {
        reveal_with_fuel(Seq::<_>::filter, 1);
    }
    while i < cs.len()
        invariant
            i <= cs@.len(),
            cs@ == s@,
            f == spaces(),
            g == not_empty(),
            done.push(cur@) == split_by(s@.take(i as int), f),
            out.deep_view() == done.filter(g),
        decreases cs@.len() - i,
    {
        proof {
            assert(s@.take(i + 1).drop_last() == s@.take(i as int));
            lemma_split_nonempty(s@.take(i as int), f);
        }
        let ghost before = out.deep_view();
        let ghost piece = cur@;
        if space(cs[i]) {
            proof {
                lists::lemma_filter_push(done, piece, g);
                done = done.push(piece);
            }
            if !cur.as_str().is_empty() {
                out.push(cur);
                cur = String::new();
                assert(out.deep_view() == before.push(piece));
            }
            assert(cur@ == Seq::<char>::empty());
        } else {
            cur.push(cs[i]);
            assert(done.push(cur@) == split_by(s@.take(i as int), f).drop_last().push(cur@));
        }
        i += 1;
    }
    assert(s@.take(i as int) == s@);
    proof {
        lists::lemma_filter_push(done, cur@, g);
    }
    let ghost before = out.deep_view();
    let ghost piece = cur@;
    if !cur.as_str().is_empty() {
        out.push(cur);
        assert(out.deep_view() == before.push(piece));
    }
    out
}

/// `parts` joined with `sep` between neighbours.
pub fn join(parts: &Vec<String>, sep: &str) -> (r: String)
    ensures
        r@ == join_with(parts.deep_view(), sep@),
{
    let mut out = String::new();
    let mut i: usize = 0;
    while i < parts.len()
        invariant
            i <= parts@.len(),
            out@ == join_with(parts.deep_view().take(i as int), sep@),
        decreases parts@.len() - i,
    {
        let ghost all = parts.deep_view();
        assert(all.take(i + 1).drop_last() == all.take(i as int));
        if i > 0 {
            out.append(sep);
        }
        out.append(parts[i].as_str());
        i += 1;
    }
    assert(parts.deep_view().take(i as int) == parts.deep_view());
    out
}

// ---------------------------------------------------------------------------
// Trimming
// ---------------------------------------------------------------------------
/// `s` without its longest prefix of scalars that satisfy `f`.
pub open spec fn trim_start_by(s: Seq<char>, f: spec_fn(char) -> bool) -> Seq<char>
    decreases s.len(),
{
    if s.len() > 0 && f(s[0]) {
        trim_start_by(s.drop_first(), f)
    } else {
        s
    }
}

/// `s` without its longest suffix of scalars that satisfy `f`.
pub open spec fn trim_end_by(s: Seq<char>, f: spec_fn(char) -> bool) -> Seq<char>
    decreases s.len(),
{
    if s.len() > 0 && f(s.last()) {
        trim_end_by(s.drop_last(), f)
    } else {
        s
    }
}

/// `s` without leading and trailing white space.
pub open spec fn trim_of(s: Seq<char>) -> Seq<char> {
    trim_end_by(trim_start_by(s, spaces()), spaces())
}

proof fn lemma_trim_start_by(s: Seq<char>, f: spec_fn(char) -> bool)
    ensures
        trim_start_by(s, f).len() > 0 ==> !f(trim_start_by(s, f)[0]),
    decreases s.len(),
{
    if s.len() > 0 && f(s[0]) {
        lemma_trim_start_by(s.drop_first(), f);
    }
}

proof fn lemma_trim_end_by(s: Seq<char>, f: spec_fn(char) -> bool)
    ensures
        trim_end_by(s, f).len() > 0 ==> !f(trim_end_by(s, f).last()) && trim_end_by(s, f)[0] == s[0],
    decreases s.len(),
{
    if s.len() > 0 && f(s.last()) {
        lemma_trim_end_by(s.drop_last(), f);
    }
}

/// Trimming twice is trimming once.
pub proof fn lemma_trim_twice(s: Seq<char>)
    ensures
        trim_of(trim_of(s)) == trim_of(s),
{
    lemma_trim_start_by(s, spaces());
    lemma_trim_end_by(trim_start_by(s, spaces()), spaces());
}

/// The class of square brackets.
pub open spec fn brackets() -> spec_fn(char) -> bool {
    |c: char| c == '[' || c == ']'
}

/// What is trimmed from the ends of a text.
#[derive(Clone, Copy)]
pub enum Class {
    Space,
    Bracket,
}

impl Class {
    /// The scalars of the class.
    pub open spec fn member(self) -> spec_fn(char) -> bool {
        match self {
            Class::Space => spaces(),
            Class::Bracket => brackets(),
        }
    }

    fn has(self, c: char) -> (r: bool)
        ensures
            r == self.member()(c),
    {
        match self {
            Class::Space => space(c),
            Class::Bracket => c == '[' || c == ']',
        }
    }
}

/// `s` without the scalars of `class` at its end.
pub fn trim_end(s: &str, class: Class) -> (r: &str)
    ensures
        r@ == trim_end_by(s@, class.member()),
{
    let cs = chars(s);
    let mut to: usize = cs.len();
    assert(s@.take(to as int) == s@);
    while to > 0 && class.has(cs[to - 1])
        invariant
            to <= cs@.len(),
            cs@ == s@,
            trim_end_by(s@.take(to as int), class.member()) == trim_end_by(s@, class.member()),
        decreases to,
    {
        assert(s@.take(to as int).drop_last() == s@.take(to - 1));
        to -= 1;
    }
    assert(s@.subrange(0, to as int) == s@.take(to as int));
    s.substring_char(0, to)
}

/// `s` without the scalars of `class` at its start.
pub fn trim_start(s: &str, class: Class) -> (r: &str)
    ensures
        r@ == trim_start_by(s@, class.member()),
{
    let cs = chars(s);
    let mut from: usize = 0;
    assert(s@.skip(0) == s@);
    while from < cs.len() && class.has(cs[from])
        invariant
            from <= cs@.len(),
            cs@ == s@,
            trim_start_by(s@.skip(from as int), class.member()) == trim_start_by(
                s@,
                class.member(),
            ),
        decreases cs@.len() - from,
    {
        assert(s@.skip(from as int).drop_first() == s@.skip(from + 1));
        from += 1;
    }
    assert(s@.subrange(from as int, s@.len() as int) == s@.skip(from as int));
    s.substring_char(from, cs.len())
}

/// `s` without leading and trailing white space.
pub fn trim(s: &str) -> (r: &str)
    ensures
        r@ == trim_of(s@),
{
    trim_end(trim_start(s, Class::Space), Class::Space)
}

// ---------------------------------------------------------------------------
// Searching
// ---------------------------------------------------------------------------
/// The index of the first occurrence of `pat` in `s`.
pub open spec fn find_at(s: Seq<char>, pat: Seq<char>) -> Option<int>
    decreases s.len(),
{
    if pat.is_prefix_of(s) {
        Some(0)
    } else if s.len() == 0 {
        None
    } else {
        match find_at(s.drop_first(), pat) {
            Some(i) => Some(i + 1),
            None => None,
        }
    }
}

/// Whether `pat` occurs in `s`.
pub open spec fn occurs(s: Seq<char>, pat: Seq<char>) -> bool {
    find_at(s, pat) is Some
}

/// What stands before the first occurrence of `pat` in `s`; all of `s` where
/// there is none.
pub open spec fn before_first(s: Seq<char>, pat: Seq<char>) -> Seq<char> {
    match find_at(s, pat) {
        Some(i) => s.take(i),
        None => s,
    }
}

/// What stands after the first occurrence of `pat` in `s`.
pub open spec fn after_first(s: Seq<char>, pat: Seq<char>) -> Option<Seq<char>> {
    match find_at(s, pat) {
        Some(i) => Some(s.skip(i + pat.len())),
        None => None,
    }
}

/// What follows the prefix `p` of `s`, where `s` starts with `p`.
pub open spec fn strip(s: Seq<char>, p: Seq<char>) -> Option<Seq<char>> {
    if p.is_prefix_of(s) {
        Some(s.skip(p.len() as int))
    } else {
        None
    }
}

proof fn lemma_find_bounds(s: Seq<char>, pat: Seq<char>)
    ensures
        find_at(s, pat) matches Some(i) ==> 0 <= i && i + pat.len() <= s.len(),
    decreases s.len(),
{
    if !pat.is_prefix_of(s) && s.len() > 0 {
        lemma_find_bounds(s.drop_first(), pat);
    }
}

/// Whether `pat` stands in `s` at index `at`.
fn matches_at(s: &Vec<char>, at: usize, pat: &Vec<char>) -> (r: bool)
    requires
        at <= s@.len(),
    ensures
        r == pat@.is_prefix_of(s@.skip(at as int)),
{
    if pat.len() > s.len() - at {
        return false;
    }
    let n = s.len();
    let mut i: usize = 0;
    while i < pat.len()
        invariant
            i <= pat@.len(),
            n == s@.len(),
            at + pat@.len() <= n,
            forall|j: int| 0 <= j < i ==> pat@[j] == s@.skip(at as int)[j],
        decreases pat@.len() - i,
    {
        if s[at + i] != pat[i] {
            assert(s@.skip(at as int)[i as int] != pat@[i as int]);
            assert(s@.skip(at as int).subrange(0, pat@.len() as int)[i as int] != pat@[i as int]);
            return false;
        }
        i += 1;
    }
    assert(s@.skip(at as int).subrange(0, pat@.len() as int) == pat@);
    true
}

/// The index of the first occurrence of `pat` in `s`.
pub fn find(s: &str, pat: &str) -> (r: Option<usize>)
    ensures
        match r {
            Some(i) => find_at(s@, pat@) == Some(i as int) && i + pat@.len() <= s@.len(),
            None => find_at(s@, pat@) is None,
        },
{
    let cs = chars(s);
    let ps = chars(pat);
    let mut at: usize = 0;
    assert(s@.skip(0) == s@);
    loop
        invariant
            at <= cs@.len(),
            cs@ == s@,
            ps@ == pat@,
            match find_at(s@.skip(at as int), pat@) {
                Some(i) => find_at(s@, pat@) == Some(i + at),
                None => find_at(s@, pat@) is None,
            },
        decreases cs@.len() - at,
    {
        if matches_at(&cs, at, &ps) {
            assert(find_at(s@, pat@) == Some(0 + at as int));
            proof {
                lemma_find_bounds(s@, pat@);
            }
            return Some(at);
        }
        if at == cs.len() {
            return None;
        }
        assert(s@.skip(at as int).drop_first() == s@.skip(at + 1));
        at += 1;
    }
}

/// Whether `pat` occurs in `s`.
pub fn contains(s: &str, pat: &str) -> (r: bool)
    ensures
        r == occurs(s@, pat@),
{
    find(s, pat).is_some()
}

/// What stands before the first occurrence of `pat` in `s`; all of `s` where
/// there is none.
pub fn before<'a>(s: &'a str, pat: &str) -> (r: &'a str)
    ensures
        r@ == before_first(s@, pat@),
{
    match find(s, pat) {
        Some(i) => {
            assert(s@.subrange(0, i as int) == s@.take(i as int));
            s.substring_char(0, i)
        },
        None => s,
    }
}

/// What stands after the first occurrence of `pat` in `s`.
pub fn after<'a>(s: &'a str, pat: &str) -> (r: Option<&'a str>)
    ensures
        match r {
            Some(t) => after_first(s@, pat@) == Some(t@),
            None => after_first(s@, pat@) is None,
        },
{
    match find(s, pat) {
        Some(i) => {
            let n = s.unicode_len();
            let m = pat.unicode_len();
            assert(s@.subrange(i + m, n as int) == s@.skip(i + m));
            Some(s.substring_char(i + m, n))
        },
        None => None,
    }
}

/// What follows the prefix `p` of `s`, where `s` starts with `p`.
pub fn strip_prefix<'a>(s: &'a str, p: &str) -> (r: Option<&'a str>)
    ensures
        match r {
            Some(t) => strip(s@, p@) == Some(t@),
            None => strip(s@, p@) is None,
        },
{
    let cs = chars(s);
    let ps = chars(p);
    assert(s@.skip(0) == s@);
    if matches_at(&cs, 0, &ps) {
        assert(s@.subrange(ps.len() as int, cs.len() as int) == s@.skip(ps.len() as int));
        Some(s.substring_char(ps.len(), cs.len()))
    } else {
        None
    }
}

/// Whether `c` occurs in `s`.
pub fn has_char(s: &str, c: char) -> (r: bool)
    ensures
        r == s@.contains(c),
{
    let cs = chars(s);
    let mut i: usize = 0;
    while i < cs.len()
        invariant
            i <= cs@.len(),
            cs@ == s@,
            forall|j: int| 0 <= j < i ==> s@[j] != c,
        decreases cs@.len() - i,
    {
        if cs[i] == c {
            assert(s@[i as int] == c);
            return true;
        }
        i += 1;
    }
    false
}

/// The two parts of `s` around the last occurrence of `c`.
pub open spec fn around_last(s: Seq<char>, c: char) -> Option<(Seq<char>, Seq<char>)>
    decreases s.len(),
{
    if s.len() == 0 {
        None
    } else if s.last() == c {
        Some((s.drop_last(), Seq::empty()))
    } else {
        match around_last(s.drop_last(), c) {
            Some((a, b)) => Some((a, b.push(s.last()))),
            None => None,
        }
    }
}

/// The two parts of `s` around the last occurrence of `c`.
pub fn rsplit_once(s: &str, c: char) -> (r: Option<(&str, &str)>)
    ensures
        match r {
            Some((a, b)) => around_last(s@, c) == Some((a@, b@)),
            None => around_last(s@, c) is None,
        },
{
    let cs = chars(s);
    let mut at: usize = cs.len();
    assert(s@.take(at as int) == s@);
    assert(s@.skip(at as int) == Seq::<char>::empty());
    assert(around_last(s@, c) matches Some((a, b)) ==> b + Seq::<char>::empty() == b);
    while at > 0
        invariant
            at <= cs@.len(),
            cs@ == s@,
            match around_last(s@.take(at as int), c) {
                Some((a, b)) => around_last(s@, c) == Some((a, b + s@.skip(at as int))),
                None => around_last(s@, c) is None,
            },
        decreases at,
    {
        assert(s@.take(at as int).drop_last() == s@.take(at - 1));
        if cs[at - 1] == c {
            assert(s@.subrange(0, at - 1) == s@.take(at - 1));
            assert(s@.subrange(at as int, s@.len() as int) == s@.skip(at as int));
            assert(Seq::<char>::empty() + s@.skip(at as int) == s@.skip(at as int));
            return Some((s.substring_char(0, at - 1), s.substring_char(at, cs.len())));
        }
        proof {
            if let Some((a, b)) = around_last(s@.take(at - 1), c) {
                assert(b.push(s@[at - 1]) + s@.skip(at as int) == b + s@.skip(at - 1));
            }
        }
        at -= 1;
    }
    None
}

/// `s` with each `from` replaced by `to`.
pub open spec fn replaced(s: Seq<char>, from: char, to: char) -> Seq<char> {
    Seq::new(
        s.len(),
        |i: int|
            if s[i] == from {
                to
            } else {
                s[i]
            },
    )
}

/// `s` with each `from` replaced by `to`.
pub fn replace_char(s: &str, from: char, to: char) -> (r: String)
    ensures
        r@ == replaced(s@, from, to),
{
    let cs = chars(s);
    let mut out = String::new();
    let mut i: usize = 0;
    while i < cs.len()
        invariant
            i <= cs@.len(),
            cs@ == s@,
            out@ == replaced(s@, from, to).take(i as int),
        decreases cs@.len() - i,
    {
        out.push(
            if cs[i] == from {
                to
            } else {
                cs[i]
            },
        );
        i += 1;
    }
    out
}

// ---------------------------------------------------------------------------
// Order
// ---------------------------------------------------------------------------
/// The order of texts: lexicographic by scalar value.
pub open spec fn precedes(a: Seq<char>, b: Seq<char>) -> bool
    decreases a.len(),
{
    if b.len() == 0 {
        false
    } else if a.len() == 0 {
        true
    } else if a[0] == b[0] {
        precedes(a.drop_first(), b.drop_first())
    } else {
        a[0] < b[0]
    }
}

/// Whether `a` stands before `b` in the order of texts.
pub fn less(a: &str, b: &str) -> (r: bool)
    ensures
        r == precedes(a@, b@),
{
    let x = chars(a);
    let y = chars(b);
    let mut i: usize = 0;
    assert(a@.skip(0) == a@ && b@.skip(0) == b@);
    loop
        invariant
            i <= x@.len(),
            i <= y@.len(),
            x@ == a@,
            y@ == b@,
            precedes(a@.skip(i as int), b@.skip(i as int)) == precedes(a@, b@),
        decreases x@.len() - i,
    {
        if i == y.len() {
            return false;
        }
        if i == x.len() {
            return true;
        }
        if x[i] != y[i] {
            return x[i] < y[i];
        }
        assert(a@.skip(i as int).drop_first() == a@.skip(i + 1));
        assert(b@.skip(i as int).drop_first() == b@.skip(i + 1));
        i += 1;
    }
}

/// The order of texts is irreflexive and total.
pub proof fn lemma_precedes_total(a: Seq<char>, b: Seq<char>)
    ensures
        !precedes(a, a),
        a == b || precedes(a, b) || precedes(b, a),
        !(precedes(a, b) && precedes(b, a)),
    decreases a.len(),
{
    if a.len() > 0 {
        lemma_precedes_total(a.drop_first(), a.drop_first());
        if b.len() > 0 {
            lemma_precedes_total(a.drop_first(), b.drop_first());
            assert(a == seq![a[0]] + a.drop_first());
            assert(b == seq![b[0]] + b.drop_first());
        }
    } else if b.len() == 0 {
        assert(a == b);
    }
}

/// The order of texts is transitive.
pub proof fn lemma_precedes_transitive(a: Seq<char>, b: Seq<char>, c: Seq<char>)
    requires
        precedes(a, b),
        precedes(b, c),
    ensures
        precedes(a, c),
    decreases a.len(),
{
    if a.len() > 0 && a[0] == b[0] && b[0] == c[0] {
        lemma_precedes_transitive(a.drop_first(), b.drop_first(), c.drop_first());
    }
}

// ---------------------------------------------------------------------------
// Whole-text classes
// ---------------------------------------------------------------------------
/// Whether each scalar of `s` is an ASCII decimal digit.
pub open spec fn all_digits(s: Seq<char>) -> bool {
    forall|i: int| 0 <= i < s.len() ==> is_digit(#[trigger] s[i])
}

/// Whether each scalar of `s` is an ASCII letter or digit.
pub open spec fn all_alnum(s: Seq<char>) -> bool {
    forall|i: int| 0 <= i < s.len() ==> is_alnum(#[trigger] s[i])
}

/// Whether each scalar of `s` is an ASCII decimal digit.
pub fn digits_only(s: &str) -> (r: bool)
    ensures
        r == all_digits(s@),
{
    let cs = chars(s);
    let mut i: usize = 0;
    while i < cs.len()
        invariant
            i <= cs@.len(),
            cs@ == s@,
            forall|j: int| 0 <= j < i ==> is_digit(#[trigger] s@[j]),
        decreases cs@.len() - i,
    {
        if !digit(cs[i]) {
            assert(!is_digit(s@[i as int]));
            return false;
        }
        i += 1;
    }
    true
}

/// Whether each scalar of `s` is an ASCII letter or digit.
pub fn alnum_only(s: &str) -> (r: bool)
    ensures
        r == all_alnum(s@),
{
    let cs = chars(s);
    let mut i: usize = 0;
    while i < cs.len()
        invariant
            i <= cs@.len(),
            cs@ == s@,
            forall|j: int| 0 <= j < i ==> is_alnum(#[trigger] s@[j]),
        decreases cs@.len() - i,
    {
        if !alnum(cs[i]) {
            assert(!is_alnum(s@[i as int]));
            return false;
        }
        i += 1;
    }
    true
}

/// The lower-case form of an ASCII letter; any other scalar as it is.
pub open spec fn lower(c: char) -> char {
    if 'A' <= c <= 'Z' {
        (c as u8 + 32) as char
    } else {
        c
    }
}

/// Whether two texts are equal up to the case of ASCII letters.
pub open spec fn same_ignoring_case(a: Seq<char>, b: Seq<char>) -> bool {
    &&& a.len() == b.len()
    &&& forall|i: int| 0 <= i < a.len() ==> lower(#[trigger] a[i]) == lower(b[i])
}

fn to_lower(c: char) -> (r: char)
    ensures
        r == lower(c),
{
    if 'A' <= c && c <= 'Z' {
        ((c as u8) + 32) as char
    } else {
        c
    }
}

/// Whether two texts are equal up to the case of ASCII letters.
pub fn equal_ignoring_case(a: &str, b: &str) -> (r: bool)
    ensures
        r == same_ignoring_case(a@, b@),
{
    let x = chars(a);
    let y = chars(b);
    if x.len() != y.len() {
        return false;
    }
    let mut i: usize = 0;
    while i < x.len()
        invariant
            x@ == a@,
            y@ == b@,
            x@.len() == y@.len(),
            i <= x@.len(),
            forall|j: int| 0 <= j < i ==> lower(#[trigger] a@[j]) == lower(b@[j]),
        decreases x@.len() - i,
    {
        if to_lower(x[i]) != to_lower(y[i]) {
            assert(lower(a@[i as int]) != lower(b@[i as int]));
            return false;
        }
        i += 1;
    }
    true
}

// ---------------------------------------------------------------------------
// Numbers
// ---------------------------------------------------------------------------
/// The value of a digit in base 16.
pub open spec fn hex_value(c: char) -> Option<nat> {
    if '0' <= c <= '9' {
        Some((c as u32 - '0' as u32) as nat)
    } else if 'a' <= c <= 'f' {
        Some((c as u32 - 'a' as u32 + 10) as nat)
    } else if 'A' <= c <= 'F' {
        Some((c as u32 - 'A' as u32 + 10) as nat)
    } else {
        None
    }
}

/// The value of a digit in base `radix`, at most 16.
pub open spec fn digit_value(c: char, radix: nat) -> Option<nat> {
    match hex_value(c) {
        Some(v) => if v < radix {
            Some(v)
        } else {
            None
        },
        None => None,
    }
}

/// The value of a sequence of digits in base `radix`; 0 for no digits.
pub open spec fn digits_value(s: Seq<char>, radix: nat) -> Option<nat>
    decreases s.len(),
{
    if s.len() == 0 {
        Some(0)
    } else {
        match (digits_value(s.drop_last(), radix), digit_value(s.last(), radix)) {
            (Some(v), Some(d)) => Some(v * radix + d),
            _ => None,
        }
    }
}

/// The value of an unsigned number in base `radix`: at least one digit, after at
/// most one plus sign.
pub open spec fn number_of(s: Seq<char>, radix: nat) -> Option<nat> {
    let t = if s.len() > 0 && s[0] == '+' {
        s.drop_first()
    } else {
        s
    };
    if t.len() == 0 {
        None
    } else {
        digits_value(t, radix)
    }
}

/// A longer sequence of digits has no smaller value.
proof fn lemma_digits_grow(s: Seq<char>, n: int, radix: nat)
    requires
        0 <= n <= s.len(),
        radix >= 1,
    ensures
        digits_value(s, radix) matches Some(v) ==> {
            &&& digits_value(s.take(n), radix) matches Some(w)
            &&& w <= v
        },
    decreases s.len() - n,
{
    if n == s.len() {
        assert(s.take(n) == s);
    } else {
        lemma_digits_grow(s, n + 1, radix);
        assert(s.take(n + 1).drop_last() == s.take(n));
        if let Some(w) = digits_value(s.take(n), radix) {
            assert(w * radix >= w) by (nonlinear_arith)
                requires
                    radix >= 1,
                    w >= 0,
            ;
        }
    }
}

/// The value of a digit in base 16.
pub fn hex_digit(c: char) -> (r: Option<u32>)
    ensures
        match r {
            Some(v) => hex_value(c) == Some(v as nat) && v < 16,
            None => hex_value(c) is None,
        },
{
    if '0' <= c && c <= '9' {
        Some(c as u32 - '0' as u32)
    } else if 'a' <= c && c <= 'f' {
        Some(c as u32 - 'a' as u32 + 10)
    } else if 'A' <= c && c <= 'F' {
        Some(c as u32 - 'A' as u32 + 10)
    } else {
        None
    }
}

/// The value of the digits of `cs` from index `from` on in base `radix`, where it
/// is at most `max`.
fn digits_from(cs: &Vec<char>, from: usize, radix: u32, max: u32) -> (r: Option<u32>)
    requires
        2 <= radix <= 16,
        from <= cs@.len(),
    ensures
        match r {
            Some(v) => digits_value(cs@.skip(from as int), radix as nat) == Some(v as nat) && v
                <= max,
            None => digits_value(cs@.skip(from as int), radix as nat) matches Some(v) ==> v > max,
        },
{
    let ghost t = cs@.skip(from as int);
    let mut value: u64 = 0;
    let mut i: usize = from;
    while i < cs.len()
        invariant
            from <= i <= cs@.len(),
            2 <= radix <= 16,
            t == cs@.skip(from as int),
            value <= max,
            digits_value(t.take(i - from), radix as nat) == Some(value as nat),
        decreases cs@.len() - i,
    {
        proof {
            assert(t.take(i - from + 1).drop_last() == t.take(i - from));
            assert(t[i - from] == cs@[i as int]);
            lemma_digits_grow(t, i - from + 1, radix as nat);
        }
        let d = match hex_digit(cs[i]) {
            Some(d) if d < radix => d,
            _ => {
                return None;
            },
        };
        assert(value * radix <= 0xffff_ffff * 16) by (nonlinear_arith)
            requires
                value <= 0xffff_ffff,
                radix <= 16,
        ;
        value = value * radix as u64 + d as u64;
        if value > max as u64 {
            return None;
        }
        i += 1;
    }
    assert(t.take(i - from) == t);
    Some(value as u32)
}

/// The value of the digits `s` in base `radix`, where it is at most `max`.
pub fn plain_number(s: &str, radix: u32, max: u32) -> (r: Option<u32>)
    requires
        2 <= radix <= 16,
    ensures
        match r {
            Some(v) => digits_value(s@, radix as nat) == Some(v as nat) && v <= max,
            None => digits_value(s@, radix as nat) matches Some(v) ==> v > max,
        },
{
    let cs = chars(s);
    assert(cs@.skip(0) == s@);
    digits_from(&cs, 0, radix, max)
}

/// The value of the unsigned number `s` in base `radix`, where it is at most
/// `max`.
pub fn number(s: &str, radix: u32, max: u32) -> (r: Option<u32>)
    requires
        2 <= radix <= 16,
    ensures
        match r {
            Some(v) => number_of(s@, radix as nat) == Some(v as nat) && v <= max,
            None => number_of(s@, radix as nat) matches Some(v) ==> v > max,
        },
{
    let cs = chars(s);
    let from: usize = if cs.len() > 0 && cs[0] == '+' {
        1
    } else {
        0
    };
    assert(from == 1 ==> cs@.skip(1) == s@.drop_first());
    assert(from == 0 ==> cs@.skip(0) == s@);
    if from == cs.len() {
        None
    } else {
        digits_from(&cs, from, radix, max)
    }
}

/// The digit with a value below 16.
pub open spec fn digit_char(v: nat) -> char {
    if v < 10 {
        ('0' as u32 + v) as char
    } else {
        ('a' as u32 + (v - 10)) as char
    }
}

/// A number in decimal.
pub open spec fn decimal_of(n: nat) -> Seq<char>
    decreases n,
{
    if n < 10 {
        seq![digit_char(n)]
    } else {
        decimal_of(n / 10).push(digit_char(n % 10))
    }
}

/// Bytes in hexadecimal, two digits each.
pub open spec fn hex_of(bytes: Seq<u8>) -> Seq<char>
    decreases bytes.len(),
{
    if bytes.len() == 0 {
        Seq::empty()
    } else {
        hex_of(bytes.drop_last()).push(digit_char((bytes.last() / 16) as nat)).push(
            digit_char((bytes.last() % 16) as nat),
        )
    }
}

fn to_digit(v: u8) -> (r: char)
    requires
        v < 16,
    ensures
        r == digit_char(v as nat),
{
    if v < 10 {
        (48 + v) as char
    } else {
        (87 + v) as char
    }
}

/// A number in decimal.
pub fn decimal(n: u64) -> (r: String)
    ensures
        r@ == decimal_of(n as nat),
    decreases n,
{
    let mut s = if n < 10 {
        String::new()
    } else {
        decimal(n / 10)
    };
    s.push(to_digit((n % 10) as u8));
    assert(s@ =~= decimal_of(n as nat));
    s
}

/// Bytes in hexadecimal, two digits each.
pub fn hex(bytes: &[u8]) -> (r: String)
    ensures
        r@ == hex_of(bytes@),
{
    let mut s = String::new();
    let mut i: usize = 0;
    assert(s@ =~= hex_of(bytes@.take(0)));
    while i < bytes.len()
        invariant
            i <= bytes@.len(),
            s@ == hex_of(bytes@.take(i as int)),
        decreases bytes@.len() - i,
    {
        assert(bytes@.take(i + 1).drop_last() == bytes@.take(i as int));
        s.push(to_digit(bytes[i] / 16));
        s.push(to_digit(bytes[i] % 16));
        i += 1;
    }
    assert(bytes@.take(i as int) == bytes@);
    s
}

/// Bytes in hexadecimal are digits and letters, two for each byte.
pub proof fn lemma_hex_of(bytes: Seq<u8>)
    ensures
        hex_of(bytes).len() == 2 * bytes.len(),
        all_alnum(hex_of(bytes)),
    decreases bytes.len(),
{
    if bytes.len() > 0 {
        let rest = bytes.drop_last();
        lemma_hex_of(rest);
        let h = hex_of(bytes);
        assert forall|i: int| 0 <= i < h.len() implies is_alnum(#[trigger] h[i]) by {
            if i < hex_of(rest).len() {
                assert(h[i] == hex_of(rest)[i]);
            }
        }
    }
}

/// A digit has its value back.
pub proof fn lemma_digit_char(v: nat)
    requires
        v < 16,
    ensures
        hex_value(digit_char(v)) == Some(v),
{
}

// ---------------------------------------------------------------------------
// Copies
// ---------------------------------------------------------------------------
/// `a` followed by `b`.
pub fn pair(a: &str, b: &str) -> (r: String)
    ensures
        r@ == a@ + b@,
{
    let mut s = a.to_owned();
    s.append(b);
    s
}

/// A copy of a list of texts.
pub fn copy_all(v: &Vec<String>) -> (r: Vec<String>)
    ensures
        r.deep_view() == v.deep_view(),
{
    let mut out: Vec<String> = Vec::new();
    let mut i: usize = 0;
    while i < v.len()
        invariant
            i <= v@.len(),
            out.deep_view() == v.deep_view().take(i as int),
        decreases v@.len() - i,
    {
        let ghost before = out.deep_view();
        out.push(v[i].clone());
        assert(out.deep_view() == before.push(v@[i as int]@));
        i += 1;
    }
    assert(v.deep_view().take(i as int) == v.deep_view());
    out
}

/// A copy of an optional text.
pub fn copy(v: &Option<String>) -> (r: Option<String>)
    ensures
        r.deep_view() == v.deep_view(),
{
    match v {
        Some(s) => Some(s.clone()),
        None => None,
    }
}

/// A list of texts made of borrowed ones.
pub fn own_all(v: &[&str]) -> (r: Vec<String>)
    ensures
        r.deep_view() == v.deep_view(),
{
    let mut out: Vec<String> = Vec::new();
    let mut i: usize = 0;
    while i < v.len()
        invariant
            i <= v@.len(),
            out.deep_view() == v.deep_view().take(i as int),
        decreases v@.len() - i,
    {
        let ghost before = out.deep_view();
        out.push(v[i].to_owned());
        assert(out.deep_view() == before.push(v@[i as int]@));
        i += 1;
    }
    assert(v.deep_view().take(i as int) == v.deep_view());
    out
}

// ---------------------------------------------------------------------------
// Sorted lists
// ---------------------------------------------------------------------------
/// The sorted list `s` with `x` added.
pub open spec fn insert_text(s: Seq<Seq<char>>, x: Seq<char>) -> Seq<Seq<char>>
    decreases s.len(),
{
    if s.len() == 0 || !precedes(x, s.last()) {
        s.push(x)
    } else {
        insert_text(s.drop_last(), x).push(s.last())
    }
}

/// The texts of `s` in order.
pub open spec fn sorted_texts(s: Seq<Seq<char>>) -> Seq<Seq<char>>
    decreases s.len(),
{
    if s.len() == 0 {
        s
    } else {
        insert_text(sorted_texts(s.drop_last()), s.last())
    }
}

/// The sorted list `s` without duplicates with `x` added, unless it is there.
pub open spec fn insert_once(s: Seq<Seq<char>>, x: Seq<char>) -> Seq<Seq<char>>
    decreases s.len(),
{
    if s.len() == 0 || precedes(s.last(), x) {
        s.push(x)
    } else if s.last() == x {
        s
    } else {
        insert_once(s.drop_last(), x).push(s.last())
    }
}

/// The distinct texts of `s` in order.
pub open spec fn distinct_texts(s: Seq<Seq<char>>) -> Seq<Seq<char>>
    decreases s.len(),
{
    if s.len() == 0 {
        s
    } else {
        insert_once(distinct_texts(s.drop_last()), s.last())
    }
}

/// Whether `s` is in order.
pub open spec fn is_sorted(s: Seq<Seq<char>>) -> bool {
    forall|i: int, j: int| 0 <= i < j < s.len() ==> !precedes(#[trigger] s[j], #[trigger] s[i])
}

/// Whether `s` is in order and without duplicates.
pub open spec fn is_increasing(s: Seq<Seq<char>>) -> bool {
    forall|i: int, j: int| 0 <= i < j < s.len() ==> precedes(#[trigger] s[i], #[trigger] s[j])
}

/// Adds `x` to the sorted list `v`.
pub fn add_sorted(v: &mut Vec<String>, x: &str)
    ensures
        final(v).deep_view() == insert_text(old(v).deep_view(), x@),
{
    let ghost s = v.deep_view();
    let mut at: usize = v.len();
    assert(s.take(at as int) == s);
    assert(insert_text(s, x@) + s.skip(at as int) == insert_text(s, x@));
    while at > 0 && less(x, &v[at - 1])
        invariant
            at <= v@.len(),
            s == v.deep_view(),
            insert_text(s.take(at as int), x@) + s.skip(at as int) == insert_text(s, x@),
        decreases at,
    {
        assert(s.take(at as int).last() == v@[at - 1]@);
        assert(s.take(at as int).drop_last() == s.take(at - 1));
        assert(insert_text(s.take(at - 1), x@).push(s[at - 1]) + s.skip(at as int) == insert_text(
            s.take(at - 1),
            x@,
        ) + s.skip(at - 1));
        at -= 1;
    }
    assert(at > 0 ==> s.take(at as int).last() == v@[at - 1]@);
    v.insert(at, x.to_owned());
    assert(v.deep_view() == s.take(at as int).push(x@) + s.skip(at as int));
}

/// Adds `x` to the increasing list `v`, unless it is there.
pub fn add_once(v: &mut Vec<String>, x: &str)
    ensures
        final(v).deep_view() == insert_once(old(v).deep_view(), x@),
{
    let ghost s = v.deep_view();
    let mut at: usize = v.len();
    assert(s.take(at as int) == s);
    assert(insert_once(s, x@) + s.skip(at as int) == insert_once(s, x@));
    while at > 0 && !less(&v[at - 1], x)
        invariant
            at <= v@.len(),
            s == v.deep_view(),
            s == old(v).deep_view(),
            insert_once(s.take(at as int), x@) + s.skip(at as int) == insert_once(s, x@),
        decreases at,
    {
        assert(s.take(at as int).last() == v@[at - 1]@);
        assert(s.take(at as int).drop_last() == s.take(at - 1));
        if same(&v[at - 1], x) {
            assert(s.take(at as int) + s.skip(at as int) == s);
            return;
        }
        assert(insert_once(s.take(at - 1), x@).push(s[at - 1]) + s.skip(at as int) == insert_once(
            s.take(at - 1),
            x@,
        ) + s.skip(at - 1));
        at -= 1;
    }
    assert(at > 0 ==> s.take(at as int).last() == v@[at - 1]@);
    v.insert(at, x.to_owned());
    assert(v.deep_view() == s.take(at as int).push(x@) + s.skip(at as int));
}

/// Insertion keeps a list sorted and adds exactly one item.
pub proof fn lemma_insert_sorted(s: Seq<Seq<char>>, x: Seq<char>)
    requires
        is_sorted(s),
    ensures
        is_sorted(insert_text(s, x)),
        insert_text(s, x).to_multiset() == s.to_multiset().insert(x),
        forall|y: Seq<char>| insert_text(s, x).contains(y) <==> y == x || s.contains(y),
    decreases s.len(),
{
    broadcast use vstd::seq_lib::group_to_multiset_ensures;

    let r = insert_text(s, x);
    if s.len() == 0 || !precedes(x, s.last()) {
        assert forall|i: int, j: int| 0 <= i < j < r.len() implies !precedes(
            #[trigger] r[j],
            #[trigger] r[i],
        ) by {
            if j == s.len() {
                if i < s.len() - 1 {
                    lemma_not_precedes_transitive(x, s.last(), s[i]);
                }
            }
        }
        assert forall|y: Seq<char>| r.contains(y) <==> y == x || s.contains(y) by {
            lists::lemma_push_contains(s, x, y);
        }
    } else {
        let t = s.drop_last();
        let q = insert_text(t, x);
        assert(is_sorted(t));
        lemma_insert_sorted(t, x);
        assert(r == q.push(s.last()));
        assert(s == t.push(s.last()));
        assert forall|i: int, j: int| 0 <= i < j < r.len() implies !precedes(
            #[trigger] r[j],
            #[trigger] r[i],
        ) by {
            assert(r[i] == q[i]);
            if j < q.len() {
                assert(r[j] == q[j]);
            } else {
                assert(q.contains(q[i]));
                if r[i] == x {
                    lemma_precedes_total(x, s.last());
                } else {
                    assert(t.contains(q[i]));
                    let k = choose|k: int| 0 <= k < t.len() && t[k] == q[i];
                    assert(s[k] == r[i]);
                }
            }
        }
        assert forall|y: Seq<char>| r.contains(y) <==> y == x || s.contains(y) by {
            lists::lemma_push_contains(q, s.last(), y);
            lists::lemma_push_contains(t, s.last(), y);
            assert(s == t.push(s.last()));
        }
        assert(r.to_multiset() =~= s.to_multiset().insert(x));
    }
}

/// Not preceding is transitive.
pub proof fn lemma_not_precedes_transitive(a: Seq<char>, b: Seq<char>, c: Seq<char>)
    requires
        !precedes(a, b),
        !precedes(b, c),
    ensures
        !precedes(a, c),
{
    lemma_precedes_total(a, b);
    lemma_precedes_total(b, c);
    lemma_precedes_total(a, c);
    if precedes(a, c) && b != c {
        if b != a {
            lemma_precedes_transitive(b, a, c);
        }
    }
}

/// Sorting gives the same texts in order.
pub proof fn lemma_sorted_texts(s: Seq<Seq<char>>)
    ensures
        is_sorted(sorted_texts(s)),
        sorted_texts(s).to_multiset() == s.to_multiset(),
        sorted_texts(s).len() == s.len(),
    decreases s.len(),
{
    broadcast use vstd::seq_lib::group_to_multiset_ensures;

    if s.len() > 0 {
        lemma_sorted_texts(s.drop_last());
        lemma_insert_sorted(sorted_texts(s.drop_last()), s.last());
        assert(s == s.drop_last().push(s.last()));
        assert(sorted_texts(s).to_multiset().len() == s.to_multiset().len());
    }
}

/// Insertion keeps a list increasing and adds at most one text.
pub proof fn lemma_insert_once(s: Seq<Seq<char>>, x: Seq<char>)
    requires
        is_increasing(s),
    ensures
        is_increasing(insert_once(s, x)),
        forall|y: Seq<char>| insert_once(s, x).contains(y) <==> y == x || s.contains(y),
    decreases s.len(),
{
    let r = insert_once(s, x);
    if s.len() == 0 || precedes(s.last(), x) {
        assert forall|i: int, j: int| 0 <= i < j < r.len() implies precedes(
            #[trigger] r[i],
            #[trigger] r[j],
        ) by {
            if j == s.len() && i < s.len() - 1 {
                lemma_precedes_transitive(s[i], s.last(), x);
            }
        }
        assert forall|y: Seq<char>| r.contains(y) <==> y == x || s.contains(y) by {
            lists::lemma_push_contains(s, x, y);
        }
    } else if s.last() == x {
        assert(s[s.len() - 1] == x);
    } else {
        let t = s.drop_last();
        let q = insert_once(t, x);
        lemma_insert_once(t, x);
        assert(r == q.push(s.last()));
        assert forall|i: int, j: int| 0 <= i < j < r.len() implies precedes(
            #[trigger] r[i],
            #[trigger] r[j],
        ) by {
            assert(r[i] == q[i]);
            if j < q.len() {
                assert(r[j] == q[j]);
            } else {
                assert(q.contains(q[i]));
                if r[i] == x {
                    lemma_precedes_total(x, s.last());
                } else {
                    assert(t.contains(q[i]));
                    let k = choose|k: int| 0 <= k < t.len() && t[k] == q[i];
                    assert(s[k] == r[i]);
                }
            }
        }
        assert forall|y: Seq<char>| r.contains(y) <==> y == x || s.contains(y) by {
            lists::lemma_push_contains(q, s.last(), y);
            lists::lemma_push_contains(t, s.last(), y);
            assert(s == t.push(s.last()));
        }
    }
}

/// The distinct texts are increasing and are those of the list.
pub proof fn lemma_distinct_texts(s: Seq<Seq<char>>)
    ensures
        is_increasing(distinct_texts(s)),
        forall|y: Seq<char>| distinct_texts(s).contains(y) <==> s.contains(y),
    decreases s.len(),
{
    if s.len() > 0 {
        let t = s.drop_last();
        lemma_distinct_texts(t);
        lemma_insert_once(distinct_texts(t), s.last());
        assert forall|y: Seq<char>| distinct_texts(s).contains(y) <==> s.contains(y) by {
            lists::lemma_push_contains(t, s.last(), y);
            assert(s == t.push(s.last()));
        }
    }
}

/// Increasing lists of the same texts are the same.
pub proof fn lemma_same_increasing(a: Seq<Seq<char>>, b: Seq<Seq<char>>)
    requires
        is_increasing(a),
        is_increasing(b),
        forall|y: Seq<char>| a.contains(y) <==> b.contains(y),
    ensures
        a == b,
    decreases a.len(),
{
    if a.len() == 0 {
        if b.len() > 0 {
            assert(b.contains(b[0]));
        }
        assert(a =~= b);
    } else {
        assert(a.contains(a[0]));
        assert(b.len() > 0);
        let x = a.last();
        let y = b.last();
        assert(a[a.len() - 1] == x && b[b.len() - 1] == y);
        assert(a.contains(x) && b.contains(y));
        let k = choose|k: int| 0 <= k < b.len() && b[k] == x;
        let m = choose|m: int| 0 <= m < a.len() && a[m] == y;
        lemma_precedes_total(x, y);
        assert(x == y);
        let s = a.drop_last();
        let t = b.drop_last();
        assert(a == s.push(x) && b == t.push(x));
        assert forall|z: Seq<char>| s.contains(z) <==> t.contains(z) by {
            lists::lemma_push_contains(s, x, z);
            lists::lemma_push_contains(t, x, z);
            lemma_precedes_total(x, x);
            if s.contains(x) {
                let i = choose|i: int| 0 <= i < s.len() && s[i] == x;
                assert(precedes(a[i], a[a.len() - 1]));
            }
            if t.contains(x) {
                let i = choose|i: int| 0 <= i < t.len() && t[i] == x;
                assert(precedes(b[i], b[b.len() - 1]));
            }
        }
        assert(is_increasing(s));
        assert(is_increasing(t));
        lemma_same_increasing(s, t);
    }
}

/// Sorting texts of which none occurs twice gives an increasing list of them.
pub proof fn lemma_sorted_distinct(s: Seq<Seq<char>>)
    requires
        s.no_duplicates(),
    ensures
        is_increasing(sorted_texts(s)),
        forall|y: Seq<char>| sorted_texts(s).contains(y) <==> s.contains(y),
{
    broadcast use vstd::seq_lib::group_to_multiset_ensures;

    let r = sorted_texts(s);
    lemma_sorted_texts(s);
    s.lemma_multiset_has_no_duplicates();
    r.lemma_multiset_has_no_duplicates_conv();
    assert forall|i: int, j: int| 0 <= i < j < r.len() implies precedes(
        #[trigger] r[i],
        #[trigger] r[j],
    ) by {
        lemma_precedes_total(r[i], r[j]);
    }
    assert forall|y: Seq<char>| r.contains(y) <==> s.contains(y) by {
        assert(r.contains(y) <==> r.to_multiset().contains(y));
        assert(s.contains(y) <==> s.to_multiset().contains(y));
    }
}

// ---------------------------------------------------------------------------
// Laws
// ---------------------------------------------------------------------------
/// Splitting at a separator and joining with it give the text back, and no part
/// holds the separator.
pub proof fn law_splitting_is_undone_by_joining(s: Seq<char>, sep: char)
    ensures
        split_at_char(s, sep).len() >= 1,
        join_with(split_at_char(s, sep), seq![sep]) == s,
        forall|i: int|
            0 <= i < split_at_char(s, sep).len() ==> !(#[trigger] split_at_char(s, sep)[i]).contains(
                sep,
            ),
    decreases s.len(),
{
    let f = only(sep);
    let parts = split_at_char(s, sep);
    if s.len() == 0 {
        assert(parts[0] =~= s);
        assert(!parts[0].contains(sep));
    } else {
        let t = s.drop_last();
        let before = split_at_char(t, sep);
        law_splitting_is_undone_by_joining(t, sep);
        assert(s == t.push(s.last()));
        if s.last() == sep {
            assert(parts == before.push(Seq::empty()));
            assert(parts.drop_last() =~= before);
            assert(join_with(parts, seq![sep]) =~= t + seq![sep] + Seq::<char>::empty());
            assert(t + seq![sep] + Seq::<char>::empty() =~= s);
            assert forall|i: int| 0 <= i < parts.len() implies !(#[trigger] parts[i]).contains(
                sep,
            ) by {
                if i < before.len() {
                    assert(parts[i] == before[i]);
                }
            }
        } else {
            let head = before.drop_last();
            let last = before.last();
            assert(parts == head.push(last.push(s.last())));
            assert(parts.drop_last() =~= head);
            assert(before =~= head.push(last));
            if head.len() == 0 {
                assert(before[0] == last);
                assert(parts[0] == last.push(s.last()));
            } else {
                assert(join_with(before, seq![sep]) == join_with(head, seq![sep]) + seq![sep]
                    + last);
                assert(join_with(parts, seq![sep]) =~= (join_with(head, seq![sep]) + seq![sep]
                    + last).push(s.last()));
            }
            assert(join_with(parts, seq![sep]) =~= s);
            assert forall|i: int| 0 <= i < parts.len() implies !(#[trigger] parts[i]).contains(
                sep,
            ) by {
                if i < head.len() {
                    assert(parts[i] == before[i]);
                } else {
                    assert(before[before.len() - 1] == last);
                    lists::lemma_push_contains(last, s.last(), sep);
                }
            }
        }
    }
}

proof fn lemma_split_concat(a: Seq<char>, c: char, b: Seq<char>, f: spec_fn(char) -> bool)
    requires
        f(c),
    ensures
        split_by(a + seq![c] + b, f) == split_by(a, f) + split_by(b, f),
    decreases b.len(),
{
    let s = a + seq![c] + b;
    if b.len() == 0 {
        assert(s.drop_last() =~= a);
        assert(split_by(s, f) =~= split_by(a, f) + split_by(b, f));
    } else {
        let d = b.drop_last();
        lemma_split_concat(a, c, d, f);
        lemma_split_nonempty(d, f);
        assert(s.drop_last() =~= a + seq![c] + d);
        assert(s.last() == b.last());
        let p = split_by(a, f);
        let q = split_by(d, f);
        if f(b.last()) {
            assert((p + q).push(Seq::empty()) =~= p + q.push(Seq::empty()));
        } else {
            assert((p + q).last() == q.last());
            assert((p + q).drop_last() =~= p + q.drop_last());
            assert((p + q.drop_last()).push(q.last().push(b.last())) =~= p + q.drop_last().push(
                q.last().push(b.last()),
            ));
        }
    }
}

proof fn lemma_split_whole(s: Seq<char>, f: spec_fn(char) -> bool)
    requires
        forall|i: int| 0 <= i < s.len() ==> !f(#[trigger] s[i]),
    ensures
        split_by(s, f) == seq![s],
    decreases s.len(),
{
    if s.len() > 0 {
        let t = s.drop_last();
        assert forall|i: int| 0 <= i < t.len() implies !f(#[trigger] t[i]) by {
            assert(t[i] == s[i]);
        }
        lemma_split_whole(t, f);
        assert(s == t.push(s.last()));
        assert(!f(s[s.len() - 1]));
        assert(split_by(s, f) =~= seq![s]);
    } else {
        assert(s =~= Seq::empty());
    }
}

/// White space parts words, and a text without any is one word, unless it is empty.
pub proof fn law_words_are_parted_by_spaces(a: Seq<char>, c: char, b: Seq<char>)
    ensures
        is_space(c) ==> words_of(a + seq![c] + b) == words_of(a) + words_of(b),
        (forall|i: int| 0 <= i < a.len() ==> !is_space(#[trigger] a[i])) ==> words_of(a) == if a.len()
            == 0 {
            Seq::empty()
        } else {
            seq![a]
        },
{
    let f = spaces();
    if is_space(c) {
        lemma_split_concat(a, c, b, f);
        Seq::filter_distributes_over_add(split_by(a, f), split_by(b, f), not_empty());
    }
    if forall|i: int| 0 <= i < a.len() ==> !is_space(#[trigger] a[i]) {
        assert forall|i: int| 0 <= i < a.len() implies !f(#[trigger] a[i]) by {
            assert(!is_space(a[i]));
        }
        lemma_split_whole(a, f);
        reveal(Seq::filter);
        let one = seq![a];
        assert(one.drop_last() =~= Seq::<Seq<char>>::empty());
        assert(Seq::<Seq<char>>::empty().filter(not_empty()) =~= Seq::<Seq<char>>::empty());
        lists::lemma_filter_push(Seq::<Seq<char>>::empty(), a, not_empty());
        assert(one =~= Seq::<Seq<char>>::empty().push(a));
        assert(words_of(a) =~= if a.len() == 0 {
            Seq::empty()
        } else {
            seq![a]
        });
    }
}

/// White space is what Unicode calls so.
pub proof fn law_white_space(c: char)
    ensures
        is_space(c) <==> {
            let n = c as u32;
            ||| 9 <= n <= 13
            ||| n == 32
            ||| n == 0x85
            ||| n == 0xa0
            ||| n == 0x1680
            ||| 0x2000 <= n <= 0x200a
            ||| n == 0x2028
            ||| n == 0x2029
            ||| n == 0x202f
            ||| n == 0x205f
            ||| n == 0x3000
        },
        is_digit(c) <==> 48 <= c as u32 <= 57,
        is_alnum(c) <==> 48 <= c as u32 <= 57 || 65 <= c as u32 <= 90 || 97 <= c as u32 <= 122,
{
}

proof fn lemma_trim_start_parts(s: Seq<char>, f: spec_fn(char) -> bool) -> (i: int)
    ensures
        0 <= i <= s.len(),
        trim_start_by(s, f) == s.skip(i),
        forall|k: int| 0 <= k < i ==> f(#[trigger] s[k]),
        i < s.len() ==> !f(s[i]),
    decreases s.len(),
{
    if s.len() > 0 && f(s[0]) {
        let t = s.drop_first();
        let j = lemma_trim_start_parts(t, f);
        assert(t.skip(j) =~= s.skip(j + 1));
        assert forall|k: int| 0 <= k < j + 1 implies f(#[trigger] s[k]) by {
            if k > 0 {
                assert(s[k] == t[k - 1]);
            }
        }
        j + 1
    } else {
        assert(s.skip(0) =~= s);
        0
    }
}

proof fn lemma_trim_end_parts(s: Seq<char>, f: spec_fn(char) -> bool) -> (j: int)
    ensures
        0 <= j <= s.len(),
        trim_end_by(s, f) == s.take(j),
        forall|k: int| j <= k < s.len() ==> f(#[trigger] s[k]),
        j > 0 ==> !f(s[j - 1]),
    decreases s.len(),
{
    if s.len() > 0 && f(s.last()) {
        let t = s.drop_last();
        let j = lemma_trim_end_parts(t, f);
        assert(t.take(j) =~= s.take(j));
        assert forall|k: int| j <= k < s.len() implies f(#[trigger] s[k]) by {
            if k < t.len() {
                assert(s[k] == t[k]);
            }
        }
        assert(j > 0 ==> s[j - 1] == t[j - 1]);
        j
    } else {
        assert(s.take(s.len() as int) =~= s);
        s.len() as int
    }
}

/// Trimming takes away white space at both ends and nothing else: what it leaves
/// starts and ends with none.
pub proof fn law_trimming_takes_spaces_at_the_ends(s: Seq<char>) -> (r: (int, int))
    ensures
        0 <= r.0 <= r.1 <= s.len(),
        trim_of(s) == s.subrange(r.0, r.1),
        forall|k: int| 0 <= k < r.0 ==> is_space(#[trigger] s[k]),
        forall|k: int| r.1 <= k < s.len() ==> is_space(#[trigger] s[k]),
        trim_of(s).len() > 0 ==> !is_space(trim_of(s)[0]) && !is_space(trim_of(s).last()),
{
    let f = spaces();
    let i = lemma_trim_start_parts(s, f);
    let t = s.skip(i);
    let j = lemma_trim_end_parts(t, f);
    assert(t.take(j) =~= s.subrange(i, i + j));
    assert forall|k: int| 0 <= k < i implies is_space(#[trigger] s[k]) by {
        assert(f(s[k]));
    }
    assert forall|k: int| i + j <= k < s.len() implies is_space(#[trigger] s[k]) by {
        assert(f(t[k - i]));
    }
    if j > 0 {
        assert(!f(s[i]));
        assert(!f(t[j - 1]));
    }
    (i, i + j)
}

/// The decimal form of a number gives it back, without a sign and without leading
/// zeros.
pub proof fn law_decimal_numbers(n: nat)
    ensures
        digits_value(decimal_of(n), 10) == Some(n),
        all_digits(decimal_of(n)),
        decimal_of(n).len() > 0,
        n > 0 ==> decimal_of(n)[0] != '0',
    decreases n,
{
    let s = decimal_of(n);
    lemma_digit_char(n % 10);
    if n < 10 {
        assert(s.drop_last() =~= Seq::<char>::empty());
        assert(digits_value(s.drop_last(), 10) == Some(0nat));
        assert(s.last() == digit_char(n));
        assert(s[0] == digit_char(n));
    } else {
        law_decimal_numbers(n / 10);
        let t = decimal_of(n / 10);
        assert(s.drop_last() =~= t);
        assert(s.last() == digit_char(n % 10));
        assert forall|i: int| 0 <= i < s.len() implies is_digit(#[trigger] s[i]) by {
            if i < t.len() {
                assert(s[i] == t[i]);
            }
        }
        assert(s[0] == t[0]);
    }
}

/// Each byte takes two digits in hexadecimal, the higher one first, in small letters.
pub proof fn law_hexadecimal_bytes(bytes: Seq<u8>, i: int)
    requires
        0 <= i < bytes.len(),
    ensures
        hex_of(bytes).len() == 2 * bytes.len(),
        hex_value(hex_of(bytes)[2 * i]) == Some((bytes[i] / 16) as nat),
        hex_value(hex_of(bytes)[2 * i + 1]) == Some((bytes[i] % 16) as nat),
        !('A' <= hex_of(bytes)[2 * i] <= 'F') && !('A' <= hex_of(bytes)[2 * i + 1] <= 'F'),
    decreases bytes.len(),
{
    let t = bytes.drop_last();
    lemma_hex_of(bytes);
    lemma_hex_of(t);
    if i < t.len() {
        law_hexadecimal_bytes(t, i);
        assert(hex_of(bytes)[2 * i] == hex_of(t)[2 * i]);
        assert(hex_of(bytes)[2 * i + 1] == hex_of(t)[2 * i + 1]);
    } else {
        lemma_digit_char((bytes[i] / 16) as nat);
        lemma_digit_char((bytes[i] % 16) as nat);
    }
}

/// A number is read digit by digit, the most significant first; a character that is
/// no digit makes it none, and a plus sign may come first.
pub proof fn law_numbers_are_read_digit_by_digit(s: Seq<char>, c: char, radix: nat)
    ensures
        digits_value(Seq::<char>::empty(), radix) == Some(0nat),
        ({
            let n = c as u32;
            let d: Option<int> = if 48 <= n <= 57 {
                Some(n - 48)
            } else if 97 <= n <= 102 {
                Some(n - 87)
            } else if 65 <= n <= 70 {
                Some(n - 55)
            } else {
                None
            };
            match (digits_value(s, radix), d) {
                (Some(v), Some(d)) => if d < radix {
                    digits_value(s.push(c), radix) == Some((v * radix + d) as nat)
                } else {
                    digits_value(s.push(c), radix) is None
                },
                _ => digits_value(s.push(c), radix) is None,
            }
        }),
        number_of(seq!['+'] + s, radix) == if s.len() == 0 {
            None
        } else {
            digits_value(s, radix)
        },
        s.len() > 0 && s[0] != '+' ==> number_of(s, radix) == digits_value(s, radix),
        number_of(Seq::<char>::empty(), radix) is None,
{
    assert(s.push(c).drop_last() =~= s);
    assert((seq!['+'] + s).drop_first() =~= s);
}

/// Whether `pat` stands in `s` from the index `i` on.
pub open spec fn stands_at(s: Seq<char>, pat: Seq<char>, i: int) -> bool {
    0 <= i && i + pat.len() <= s.len() && s.subrange(i, i + pat.len()) == pat
}

/// A pattern is found where it first stands, and nowhere where it does not stand.
pub proof fn law_patterns_are_found_where_they_stand(s: Seq<char>, pat: Seq<char>)
    ensures
        match find_at(s, pat) {
            Some(i) => stands_at(s, pat, i) && forall|j: int|
                j < i ==> !#[trigger] stands_at(s, pat, j),
            None => forall|j: int| !#[trigger] stands_at(s, pat, j),
        },
        occurs(s, pat) <==> exists|j: int| #[trigger] stands_at(s, pat, j),
        match after_first(s, pat) {
            Some(rest) => s == before_first(s, pat) + pat + rest,
            None => before_first(s, pat) == s,
        },
        after_first(s, pat) is Some <==> occurs(s, pat),
    decreases s.len(),
{
    lemma_find_bounds(s, pat);
    let n = pat.len();
    if pat.is_prefix_of(s) {
        assert(s.subrange(0, n as int) =~= pat);
        assert(stands_at(s, pat, 0));
        assert(s =~= s.take(0) + pat + s.skip(n as int));
    } else if s.len() == 0 {
        assert forall|j: int| !#[trigger] stands_at(s, pat, j) by {
            if stands_at(s, pat, j) {
                assert(pat =~= s);
            }
        }
    } else {
        let t = s.drop_first();
        law_patterns_are_found_where_they_stand(t, pat);
        assert(!stands_at(s, pat, 0)) by {
            if stands_at(s, pat, 0) {
                assert(s.subrange(0, n as int) == pat);
            }
        }
        assert forall|j: int| j > 0 implies #[trigger] stands_at(s, pat, j) == stands_at(
            t,
            pat,
            j - 1,
        ) by {
            if j + n <= s.len() {
                assert(s.subrange(j, j + n) =~= t.subrange(j - 1, j - 1 + n));
            }
        }
        match find_at(s, pat) {
            Some(i) => {
                assert(stands_at(t, pat, i - 1));
                assert(stands_at(s, pat, i));
                assert(s =~= s.take(i) + s.subrange(i, i + n) + s.skip(i + n));
            },
            None => {},
        }
        assert forall|j: int| (match find_at(s, pat) {
            Some(i) => j < i,
            None => true,
        }) implies !#[trigger] stands_at(s, pat, j) by {
            if j > 0 {
                assert(!stands_at(t, pat, j - 1));
            }
        }
    }
}

/// A text is parted at the last place of a character, where it holds it.
pub proof fn law_texts_are_parted_at_the_last_place(s: Seq<char>, c: char)
    ensures
        match around_last(s, c) {
            Some((a, b)) => s == a + seq![c] + b && !b.contains(c),
            None => !s.contains(c),
        },
    decreases s.len(),
{
    if s.len() > 0 {
        let t = s.drop_last();
        assert(s == t.push(s.last()));
        if s.last() == c {
            assert(s =~= t + seq![c] + Seq::<char>::empty());
        } else {
            law_texts_are_parted_at_the_last_place(t, c);
            lists::lemma_push_contains(t, s.last(), c);
            match around_last(t, c) {
                Some((a, b)) => {
                    assert(s =~= a + seq![c] + b.push(s.last()));
                    lists::lemma_push_contains(b, s.last(), c);
                },
                None => {},
            }
        }
    }
}

/// A prefix is taken off a text exactly where the text starts with it.
pub proof fn law_prefixes_are_taken_off(p: Seq<char>, rest: Seq<char>, s: Seq<char>)
    ensures
        strip(p + rest, p) == Some(rest),
        strip(s, p) matches Some(t) ==> s == p + t,
{
    assert(p.is_prefix_of(p + rest));
    assert((p + rest).skip(p.len() as int) =~= rest);
    if let Some(t) = strip(s, p) {
        assert(s =~= p + t);
    }
}

/// Replacing a character changes it wherever it stands, and nothing else.
pub proof fn law_characters_are_replaced(s: Seq<char>, from: char, to: char, i: int)
    requires
        0 <= i < s.len(),
    ensures
        replaced(s, from, to).len() == s.len(),
        s[i] == from ==> replaced(s, from, to)[i] == to,
        s[i] != from ==> replaced(s, from, to)[i] == s[i],
{
}

/// Texts are ordered by the first character in which they differ, and a text comes
/// before every longer one that starts with it.
pub proof fn law_texts_are_in_dictionary_order(
    p: Seq<char>,
    c: char,
    a: Seq<char>,
    d: char,
    b: Seq<char>,
)
    ensures
        c < d ==> precedes(p + seq![c] + a, p + seq![d] + b),
        precedes(p, p + seq![d] + b),
        !precedes(p + seq![d] + b, p),
        !precedes(p, p),
    decreases p.len(),
{
    lemma_precedes_total(p, p);
    lemma_precedes_total(p, p + seq![d] + b);
    let x = p + seq![c] + a;
    let y = p + seq![d] + b;
    if p.len() > 0 {
        let q = p.drop_first();
        law_texts_are_in_dictionary_order(q, c, a, d, b);
        assert(x.drop_first() =~= q + seq![c] + a);
        assert(y.drop_first() =~= q + seq![d] + b);
        assert(x[0] == p[0] && y[0] == p[0]);
    } else {
        assert(x[0] == c && y[0] == d);
    }
}

/// Letters are compared without regard to case, and everything else as it is.
pub proof fn law_case_is_ignored(a: char, b: char)
    ensures
        same_ignoring_case(seq![a], seq![b]) <==> {
            ||| a == b
            ||| 65 <= a as u32 <= 90 && b as u32 == a as u32 + 32
            ||| 65 <= b as u32 <= 90 && a as u32 == b as u32 + 32
        },
{
    let s = seq![a];
    let t = seq![b];
    assert(s[0] == a && t[0] == b);
    assert(same_ignoring_case(s, t) <==> lower(a) == lower(b)) by {
        if same_ignoring_case(s, t) {
            assert(lower(s[0]) == lower(t[0]));
        }
    }
}

/// Joining puts the separator between the parts, and nowhere else.
pub proof fn law_parts_are_joined(parts: Seq<Seq<char>>, last: Seq<char>, sep: Seq<char>)
    ensures
        join_with(Seq::<Seq<char>>::empty(), sep) == Seq::<char>::empty(),
        join_with(seq![last], sep) == last,
        parts.len() > 0 ==> join_with(parts.push(last), sep) == join_with(parts, sep) + sep + last,
{
    assert(parts.push(last).drop_last() =~= parts);
    assert(seq![last][0] == last);
}

} // verus!
