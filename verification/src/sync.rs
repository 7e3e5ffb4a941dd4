//! Which copies are new: what the desktop shares, and what it takes from the phone.
//!
//! Only digests are kept, and nothing outlives a session.
use crate::bytes;
use crate::clock::{nanos_since, MAX_SPAN};
use crate::protocol::{self, valid};
use sha2::{Digest, Sha256};
use std::collections::VecDeque;
use tokio::time::Instant;
use vstd::prelude::*;

verus! {

/// The SHA-256 digest of a byte sequence.
pub uninterp spec fn sha256(data: Seq<u8>) -> Seq<u8>;

/// `sha2::Sha256::digest` is a function of the bytes alone.
#[verifier::external_body]
fn digest(data: &[u8]) -> (r: [u8; 32])
    ensures
        r@ == sha256(data@),
{
    Sha256::digest(data).into()
}

/// How many texts are remembered.
pub const MAX_ECHOES: usize = 64;

/// How long a text is remembered, in nanoseconds.
pub const ECHO_SPAN: u128 = 3000000000;

/// Decides what is new on either side.
pub struct Policy {
    desktop: Option<[u8; 32]>,
    echoes: VecDeque<([u8; 32], u128)>,
    start: Instant,
}

/// What a [`Policy`] holds.
pub struct PolicyView {
    /// The digest of what is on the desktop, if anything.
    pub desktop: Option<Seq<u8>>,
    /// The digests of the texts that the phone got, the oldest first, each with the
    /// end of the time in which the phone may send it back.
    pub echoes: Seq<(Seq<u8>, u128)>,
}

spec fn digest_in(d: Option<[u8; 32]>) -> Option<Seq<u8>> {
    match d {
        Some(h) => Some(h@),
        None => None,
    }
}

spec fn echoes_in(s: Seq<([u8; 32], u128)>) -> Seq<(Seq<u8>, u128)> {
    s.map_values(|e: ([u8; 32], u128)| (e.0@, e.1))
}

impl View for Policy {
    type V = PolicyView;

    closed spec fn view(&self) -> PolicyView {
        PolicyView { desktop: digest_in(self.desktop), echoes: echoes_in(self.echoes@) }
    }
}

/// The digest of what is there, if anything.
pub open spec fn digest_of(data: Option<Seq<u8>>) -> Option<Seq<u8>> {
    match data {
        Some(d) => Some(sha256(d)),
        None => None,
    }
}

/// The view of what is there, if anything.
pub open spec fn content(data: Option<&[u8]>) -> Option<Seq<u8>> {
    match data {
        Some(d) => Some(d@),
        None => None,
    }
}

/// What is left of `echoes` at the time `now`: those at the front that are over are
/// forgotten.
pub open spec fn fresh(echoes: Seq<(Seq<u8>, u128)>, now: u128) -> Seq<(Seq<u8>, u128)>
    decreases echoes.len(),
{
    if echoes.len() > 0 && echoes[0].1 < now {
        fresh(echoes.drop_first(), now)
    } else {
        echoes
    }
}

/// Whether `echoes` hold the digest `hash`.
pub open spec fn echoed(echoes: Seq<(Seq<u8>, u128)>, hash: Seq<u8>) -> bool {
    exists|i: int| 0 <= i < echoes.len() && (#[trigger] echoes[i]).0 == hash
}

impl PolicyView {
    /// No more texts are remembered than may be.
    pub open spec fn inv(self) -> bool {
        self.echoes.len() <= MAX_ECHOES
    }

    /// The texts that are remembered are in the order of the ends of their times.
    pub open spec fn in_order(self) -> bool {
        forall|i: int, j: int|
            0 <= i < j < self.echoes.len() ==> (#[trigger] self.echoes[i]).1 <= (
            #[trigger] self.echoes[j]).1
    }

    /// The phone got `data` so short a time before `now` that it may still send it
    /// back.
    pub open spec fn awaits(self, data: Seq<u8>, now: u128) -> bool {
        exists|i: int|
            0 <= i < self.echoes.len() && (#[trigger] self.echoes[i]).0 == sha256(data)
                && self.echoes[i].1 >= now
    }

    /// A session begins with `baseline` on the desktop.
    pub open spec fn new(baseline: Option<Seq<u8>>) -> PolicyView {
        PolicyView { desktop: digest_of(baseline), echoes: Seq::empty() }
    }

    /// Whether `data` on the desktop is to be shared.
    pub open spec fn shares(self, data: Option<Seq<u8>>) -> bool {
        &&& digest_of(data) != self.desktop
        &&& data matches Some(d) && protocol::is_valid(d)
    }

    /// `data` is on the desktop.
    pub open spec fn holding(self, data: Option<Seq<u8>>) -> PolicyView {
        PolicyView { desktop: digest_of(data), ..self }
    }

    /// The phone got `data` at the time `now`.
    pub open spec fn sent(self, data: Seq<u8>, now: u128) -> PolicyView {
        let kept = if self.echoes.len() == MAX_ECHOES {
            self.echoes.drop_first()
        } else {
            self.echoes
        };
        PolicyView { echoes: kept.push((sha256(data), (now + ECHO_SPAN) as u128)), ..self }
    }

    /// Whether `data` from the phone is to be taken at the time `now`.
    pub open spec fn accepts(self, data: Seq<u8>, now: u128) -> bool {
        &&& protocol::is_valid(data)
        &&& self.desktop != Some(sha256(data))
        &&& !echoed(fresh(self.echoes, now), sha256(data))
    }

    /// `data` came from the phone at the time `now`.
    pub open spec fn heard(self, data: Seq<u8>, now: u128) -> PolicyView {
        if protocol::is_valid(data) {
            PolicyView { echoes: fresh(self.echoes, now), ..self }
        } else {
            self
        }
    }
}

fn digest_if(data: Option<&[u8]>) -> (r: Option<[u8; 32]>)
    ensures
        digest_in(r) == digest_of(content(data)),
{
    match data {
        Some(d) => Some(digest(d)),
        None => None,
    }
}

fn same_digest(a: &Option<[u8; 32]>, b: &Option<[u8; 32]>) -> (r: bool)
    ensures
        r == (digest_in(*a) == digest_in(*b)),
{
    match (a, b) {
        (Some(x), Some(y)) => bytes::same(x, y),
        (None, None) => true,
        _ => false,
    }
}

impl Policy {
    /// A session begins with `baseline` on the desktop. It is not shared.
    pub fn new(baseline: Option<&[u8]>) -> (r: Policy)
        ensures
            r@ == PolicyView::new(content(baseline)),
            r@.inv(),
    {
        let r = Policy {
            desktop: digest_if(baseline),
            echoes: VecDeque::with_capacity(MAX_ECHOES),
            start: Instant::now(),
        };
        assert(r@.echoes =~= Seq::empty());
        r
    }

    /// The time since the session began, in nanoseconds.
    pub fn now(&self) -> (r: u128)
        ensures
            r <= MAX_SPAN,
    {
        nanos_since(&self.start)
    }

    /// Takes note of what is on the desktop, and says whether it is to be shared.
    pub fn desktop(&mut self, data: Option<&[u8]>) -> (r: bool)
        ensures
            r == old(self)@.shares(content(data)),
            final(self)@ == old(self)@.holding(content(data)),
    {
        let next = digest_if(data);
        if same_digest(&next, &self.desktop) {
            return false;
        }
        self.desktop = next;
        match data {
            Some(d) => valid(d),
            None => false,
        }
    }

    /// Takes note that the phone got `data` at the time `now`.
    pub fn sent_at(&mut self, data: &[u8], now: u128)
        requires
            now <= MAX_SPAN,
        ensures
            final(self)@ == old(self)@.sent(data@, now),
            old(self)@.inv() ==> final(self)@.inv(),
    {
        if self.echoes.len() == MAX_ECHOES {
            let ghost before = self.echoes@;
            self.echoes.pop_front();
            assert(echoes_in(self.echoes@) =~= echoes_in(before).drop_first());
        }
        let ghost kept = self.echoes@;
        let hash = digest(data);
        self.echoes.push_back((hash, now + ECHO_SPAN));
        assert(echoes_in(self.echoes@) =~= echoes_in(kept).push(
            (sha256(data@), (now + ECHO_SPAN) as u128),
        ));
    }

    /// Takes note that the phone got `data` now.
    pub fn sent(&mut self, data: &[u8])
        ensures
            exists|now: u128|
                now <= MAX_SPAN && final(self)@ == #[trigger] old(self)@.sent(data@, now),
            old(self)@.inv() ==> final(self)@.inv(),
    {
        let now: u128 = self.now();
        self.sent_at(data, now);
        assert(self@ == old(self)@.sent(data@, now));
    }

    /// Says whether `data`, which came from the phone at the time `now`, is new.
    pub fn phone_at(&mut self, data: &[u8], now: u128) -> (r: bool)
        ensures
            r == old(self)@.accepts(data@, now),
            final(self)@ == old(self)@.heard(data@, now),
            old(self)@.inv() ==> final(self)@.inv(),
    {
        if !valid(data) {
            return false;
        }
        let ghost all = self@.echoes;
        while self.echoes.len() > 0 && self.echoes[0].1 < now
            invariant
                self@ == (PolicyView { echoes: self@.echoes, ..old(self)@ }),
                all == old(self)@.echoes,
                fresh(self@.echoes, now) == fresh(all, now),
                self@.echoes.len() <= all.len(),
            decreases self.echoes@.len(),
        {
            let ghost before = self.echoes@;
            assert(echoes_in(before)[0] == (before[0].0@, before[0].1));
            self.echoes.pop_front();
            assert(echoes_in(self.echoes@) =~= echoes_in(before).drop_first());
        }
        assert(self.echoes@.len() > 0 ==> echoes_in(self.echoes@)[0] == (
            self.echoes@[0].0@,
            self.echoes@[0].1,
        ));
        assert(self@.echoes == fresh(all, now));
        let hash = digest(data);
        if same_digest(&Some(hash), &self.desktop) {
            return false;
        }
        let ghost left = self@.echoes;
        let mut i: usize = 0;
        while i < self.echoes.len()
            invariant
                i <= self.echoes@.len(),
                left == echoes_in(self.echoes@),
                hash@ == sha256(data@),
                self@ == old(self)@.heard(data@, now),
                self@.echoes == left,
                left == fresh(old(self)@.echoes, now),
                left.len() <= old(self)@.echoes.len(),
                protocol::is_valid(data@),
                forall|j: int| 0 <= j < i ==> (#[trigger] left[j]).0 != sha256(data@),
            decreases self.echoes@.len() - i,
        {
            assert(left[i as int] == (self.echoes@[i as int].0@, self.echoes@[i as int].1));
            if bytes::same(&self.echoes[i].0, &hash) {
                assert(echoed(left, sha256(data@)));
                return false;
            }
            i += 1;
        }
        true
    }

    /// Says whether `data`, which comes from the phone now, is new.
    pub fn phone(&mut self, data: &[u8]) -> (r: bool)
        ensures
            exists|now: u128|
                now <= MAX_SPAN && r == #[trigger] old(self)@.accepts(data@, now) && final(self)@
                    == old(self)@.heard(data@, now),
            old(self)@.inv() ==> final(self)@.inv(),
    {
        let now: u128 = self.now();
        let r = self.phone_at(data, now);
        assert(r == old(self)@.accepts(data@, now));
        r
    }

    /// Takes note that `data` was put on the desktop.
    pub fn applied(&mut self, data: &[u8])
        ensures
            final(self)@ == old(self)@.holding(Some(data@)),
    {
        self.desktop = Some(digest(data));
    }
}

// ---------------------------------------------------------------------------
// Laws
// ---------------------------------------------------------------------------
/// What is on the desktop when a session begins is not shared.
pub proof fn law_baseline_is_not_shared(baseline: Option<Seq<u8>>)
    ensures
        !PolicyView::new(baseline).shares(baseline),
{
}

/// A copy is shared at most once while it stays on the desktop, and what was put
/// there from the phone is not shared back.
pub proof fn law_held_text_is_not_shared_again(p: PolicyView, data: Option<Seq<u8>>)
    ensures
        !p.holding(data).shares(data),
{
}

/// A text on the desktop is not taken from the phone.
pub proof fn law_held_text_is_not_taken(p: PolicyView, data: Seq<u8>, now: u128)
    ensures
        !p.holding(Some(data)).accepts(data, now),
{
}

/// A text that may not be shared goes neither way.
pub proof fn law_invalid_text_is_not_exchanged(p: PolicyView, data: Seq<u8>, now: u128)
    requires
        !protocol::is_valid(data),
    ensures
        !p.shares(Some(data)),
        !p.accepts(data, now),
{
}

proof fn lemma_fresh(echoes: Seq<(Seq<u8>, u128)>, now: u128)
    ensures
        fresh(echoes, now).len() <= echoes.len(),
        fresh(echoes, now) == echoes.skip(echoes.len() - fresh(echoes, now).len()),
        forall|i: int|
            0 <= i < echoes.len() && (#[trigger] echoes[i]).1 >= now ==> i >= echoes.len() - fresh(
                echoes,
                now,
            ).len(),
        forall|i: int|
            0 <= i < echoes.len() - fresh(echoes, now).len() ==> (#[trigger] echoes[i]).1 < now,
        fresh(echoes, now).len() > 0 ==> fresh(echoes, now)[0].1 >= now,
    decreases echoes.len(),
{
    if echoes.len() > 0 && echoes[0].1 < now {
        let rest = echoes.drop_first();
        lemma_fresh(rest, now);
        let k = rest.len() - fresh(rest, now).len();
        assert(rest.skip(k) =~= echoes.skip(k + 1));
        assert forall|i: int| 0 <= i < k + 1 implies (#[trigger] echoes[i]).1 < now by {
            if i > 0 {
                assert(rest[i - 1] == echoes[i]);
            }
        }
        assert forall|i: int| 0 <= i < echoes.len() && (#[trigger] echoes[i]).1 >= now implies i
            >= k + 1 by {
            assert(rest[i - 1] == echoes[i]);
        }
    } else {
        assert(echoes.skip(0) =~= echoes);
    }
}

/// A text is not taken from the phone while it is remembered that the phone got
/// it.
pub proof fn law_echo_is_not_taken(p: PolicyView, data: Seq<u8>, until: u128, now: u128)
    requires
        p.echoes.contains((sha256(data), until)),
        now <= until,
    ensures
        !p.accepts(data, now),
{
    lemma_fresh(p.echoes, now);
    let left = fresh(p.echoes, now);
    let i = choose|i: int| 0 <= i < p.echoes.len() && p.echoes[i] == (sha256(data), until);
    assert(p.echoes[i].1 >= now);
    let k = p.echoes.len() - left.len();
    assert(left[i - k] == p.echoes[i]);
}

/// A text that the phone got is not taken back from it in the next three seconds.
pub proof fn law_sent_text_is_not_taken_back(p: PolicyView, data: Seq<u8>, at: u128, now: u128)
    requires
        at <= MAX_SPAN,
        now <= at + ECHO_SPAN,
    ensures
        !p.sent(data, at).accepts(data, now),
{
    let q = p.sent(data, at);
    let until = (at + ECHO_SPAN) as u128;
    assert(q.echoes[q.echoes.len() - 1] == (sha256(data), until));
    law_echo_is_not_taken(q, data, until, now);
}

/// Sending a text makes the policy forget at most the oldest one, and that only
/// where as many are remembered as may be.
pub proof fn law_sending_keeps_recent_echoes(p: PolicyView, data: Seq<u8>, at: u128, i: int)
    requires
        0 <= i < p.echoes.len(),
        i > 0 || p.echoes.len() < MAX_ECHOES,
    ensures
        p.sent(data, at).echoes.contains(p.echoes[i]),
{
    let q = p.sent(data, at);
    if p.echoes.len() == MAX_ECHOES {
        assert(q.echoes[i - 1] == p.echoes[i]);
    } else {
        assert(q.echoes[i] == p.echoes[i]);
    }
}

/// A text that may be shared, is not on the desktop and was not sent is taken from
/// the phone.
pub proof fn law_new_text_is_taken(p: PolicyView, data: Seq<u8>, now: u128)
    requires
        protocol::is_valid(data),
        p.desktop != Some(sha256(data)),
        !echoed(p.echoes, sha256(data)),
    ensures
        p.accepts(data, now),
{
    lemma_fresh(p.echoes, now);
    let left = fresh(p.echoes, now);
    let k = p.echoes.len() - left.len();
    assert forall|i: int| 0 <= i < left.len() implies (#[trigger] left[i]).0 != sha256(data) by {
        assert(left[i] == p.echoes[i + k]);
    }
}

/// Where the remembered texts are in order, a text is taken from the phone exactly
/// where it may be shared, is not on the desktop and its time to come back is over,
/// if it was sent at all.
pub proof fn law_only_recent_echoes_are_refused(p: PolicyView, data: Seq<u8>, now: u128)
    requires
        p.in_order(),
    ensures
        p.accepts(data, now) <==> protocol::is_valid(data) && p.desktop != Some(sha256(data))
            && !p.awaits(data, now),
{
    lemma_fresh(p.echoes, now);
    let left = fresh(p.echoes, now);
    let k = p.echoes.len() - left.len();
    if p.awaits(data, now) {
        let i = choose|i: int|
            0 <= i < p.echoes.len() && (#[trigger] p.echoes[i]).0 == sha256(data)
                && p.echoes[i].1 >= now;
        assert(left[i - k] == p.echoes[i]);
    }
    if echoed(left, sha256(data)) {
        let i = choose|i: int| 0 <= i < left.len() && (#[trigger] left[i]).0 == sha256(data);
        assert(left[i] == p.echoes[i + k]);
        assert(left[0] == p.echoes[k]);
        if i > 0 {
            assert(p.echoes[k].1 <= p.echoes[i + k].1);
        }
    }
}

/// The remembered texts are in order from the beginning, and stay so whatever is
/// done, as long as texts are sent one after another.
pub proof fn law_echoes_stay_in_order(
    p: PolicyView,
    baseline: Option<Seq<u8>>,
    data: Seq<u8>,
    held: Option<Seq<u8>>,
    now: u128,
)
    requires
        p.in_order(),
        now <= MAX_SPAN,
    ensures
        PolicyView::new(baseline).in_order(),
        p.holding(held).in_order(),
        p.heard(data, now).in_order(),
        (forall|i: int| 0 <= i < p.echoes.len() ==> (#[trigger] p.echoes[i]).1 <= now + ECHO_SPAN)
            ==> p.sent(data, now).in_order(),
{
    lemma_fresh(p.echoes, now);
    let left = fresh(p.echoes, now);
    let k = p.echoes.len() - left.len();
    assert forall|i: int, j: int| 0 <= i < j < left.len() implies (#[trigger] left[i]).1 <= (
    #[trigger] left[j]).1 by {
        assert(left[i] == p.echoes[i + k] && left[j] == p.echoes[j + k]);
    }
    let q = p.sent(data, now);
    let d: int = if p.echoes.len() == MAX_ECHOES {
        1
    } else {
        0
    };
    if forall|i: int| 0 <= i < p.echoes.len() ==> (#[trigger] p.echoes[i]).1 <= now + ECHO_SPAN {
        assert forall|i: int, j: int| 0 <= i < j < q.echoes.len() implies (#[trigger] q.echoes[i]).1
            <= (#[trigger] q.echoes[j]).1 by {
            assert(q.echoes[i] == p.echoes[i + d]);
            if j < q.echoes.len() - 1 {
                assert(q.echoes[j] == p.echoes[j + d]);
            }
        }
    }
}

proof fn lemma_fresh_again(echoes: Seq<(Seq<u8>, u128)>, now: u128, later: u128)
    requires
        now <= later,
    ensures
        fresh(fresh(echoes, now), later) == fresh(echoes, later),
    decreases echoes.len(),
{
    if echoes.len() > 0 && echoes[0].1 < now {
        lemma_fresh_again(echoes.drop_first(), now, later);
    }
}

/// A text from the phone changes nothing for those that follow: a text that comes
/// back in its time is refused each time it comes back, and one that was new stays
/// new until it is put on the desktop or sent.
pub proof fn law_hearing_changes_no_answer(
    p: PolicyView,
    data: Seq<u8>,
    now: u128,
    other: Seq<u8>,
    later: u128,
)
    requires
        now <= later,
    ensures
        p.heard(data, now).accepts(other, later) == p.accepts(other, later),
        p.heard(data, now).desktop == p.desktop,
        p.accepts(data, now) ==> p.heard(data, now).accepts(data, later),
{
    lemma_fresh_again(p.echoes, now, later);
    let left = fresh(p.echoes, now);
    lemma_fresh(left, later);
    let k = left.len() - fresh(left, later).len();
    if echoed(fresh(left, later), sha256(data)) {
        let i = choose|i: int|
            0 <= i < fresh(left, later).len() && (#[trigger] fresh(left, later)[i]).0 == sha256(data);
        assert(left[i + k] == fresh(left, later)[i]);
    }
}

/// What a policy is told.
pub enum Report {
    /// This is on the desktop.
    Desktop(Option<Seq<u8>>),
    /// The phone got this.
    Sent(Seq<u8>),
    /// The phone sent this.
    Phone(Seq<u8>),
    /// This was put on the desktop.
    Applied(Seq<u8>),
}

/// The policy of a session that began with `baseline`, after reports at their times.
pub open spec fn policy_after(
    baseline: Option<Seq<u8>>,
    reports: Seq<(u128, Report)>,
) -> PolicyView
    decreases reports.len(),
{
    if reports.len() == 0 {
        PolicyView::new(baseline)
    } else {
        let p = policy_after(baseline, reports.drop_last());
        let at = reports.last().0;
        match reports.last().1 {
            Report::Desktop(data) => p.holding(data),
            Report::Sent(data) => p.sent(data, at),
            Report::Phone(data) => p.heard(data, at),
            Report::Applied(data) => p.holding(Some(data)),
        }
    }
}

/// What is on the desktop after reports.
pub open spec fn held_after(
    baseline: Option<Seq<u8>>,
    reports: Seq<(u128, Report)>,
) -> Option<Seq<u8>>
    decreases reports.len(),
{
    if reports.len() == 0 {
        baseline
    } else {
        match reports.last().1 {
            Report::Desktop(data) => data,
            Report::Applied(data) => Some(data),
            _ => held_after(baseline, reports.drop_last()),
        }
    }
}

/// The texts that the phone got according to reports, each with its time.
pub open spec fn texts_sent(reports: Seq<(u128, Report)>) -> Seq<(Seq<u8>, u128)>
    decreases reports.len(),
{
    if reports.len() == 0 {
        Seq::empty()
    } else {
        let sent = texts_sent(reports.drop_last());
        match reports.last().1 {
            Report::Sent(data) => sent.push((data, reports.last().0)),
            _ => sent,
        }
    }
}

/// Whether reports come one after another, the last of them at `now` at the latest.
pub open spec fn in_time(reports: Seq<(u128, Report)>, now: u128) -> bool {
    &&& forall|i: int, j: int|
        0 <= i < j < reports.len() ==> (#[trigger] reports[i]).0 <= (#[trigger] reports[j]).0
    &&& forall|i: int| 0 <= i < reports.len() ==> (#[trigger] reports[i]).0 <= now
}

/// Whether `data` is among the last texts that the phone got, at most three seconds
/// before `now`. Texts with the same digest are not told apart.
pub open spec fn sent_lately(sent: Seq<(Seq<u8>, u128)>, data: Seq<u8>, now: u128) -> bool {
    exists|i: int|
        0 <= i < sent.len() && i >= sent.len() - 64 && sha256((#[trigger] sent[i]).0)
            == sha256(data) && now <= sent[i].1 + 3_000_000_000
}

spec fn echo_of(text: (Seq<u8>, u128)) -> (Seq<u8>, u128) {
    (sha256(text.0), (text.1 + ECHO_SPAN) as u128)
}

/// What a policy remembers is the end of what was sent, but for what is over.
spec fn remembers(p: PolicyView, sent: Seq<(Seq<u8>, u128)>, now: u128) -> bool {
    &&& p.echoes.len() <= sent.len()
    &&& p.inv()
    &&& forall|i: int|
        0 <= i < p.echoes.len() ==> #[trigger] p.echoes[i] == echo_of(
            sent[i + sent.len() - p.echoes.len()],
        )
    &&& forall|i: int|
        0 <= i < sent.len() - p.echoes.len() && i >= sent.len() - MAX_ECHOES ==> (
        #[trigger] sent[i]).1 + ECHO_SPAN < now
    &&& forall|i: int, j: int|
        0 <= i < j < sent.len() ==> (#[trigger] sent[i]).1 <= (#[trigger] sent[j]).1
    &&& forall|i: int| 0 <= i < sent.len() ==> (#[trigger] sent[i]).1 <= now
}

proof fn lemma_remembers(baseline: Option<Seq<u8>>, reports: Seq<(u128, Report)>, now: u128)
    requires
        in_time(reports, now),
        now <= MAX_SPAN,
    ensures
        remembers(policy_after(baseline, reports), texts_sent(reports), now),
        policy_after(baseline, reports).desktop == digest_of(held_after(baseline, reports)),
    decreases reports.len(),
{
    if reports.len() > 0 {
        let before = reports.drop_last();
        let at = reports.last().0;
        assert(reports[reports.len() - 1].0 == at);
        assert forall|i: int| 0 <= i < before.len() implies (#[trigger] before[i]).0 <= at by {
            assert(before[i] == reports[i]);
        }
        assert(in_time(before, at)) by {
            assert forall|i: int, j: int| 0 <= i < j < before.len() implies (
            #[trigger] before[i]).0 <= (#[trigger] before[j]).0 by {
                assert(before[i] == reports[i] && before[j] == reports[j]);
            }
        }
        lemma_remembers(baseline, before, at);
        let p = policy_after(baseline, before);
        let q = policy_after(baseline, reports);
        let old_sent = texts_sent(before);
        let sent = texts_sent(reports);
        match reports.last().1 {
            Report::Sent(data) => {
                assert(sent == old_sent.push((data, at)));
                let d: int = if p.echoes.len() == MAX_ECHOES {
                    1
                } else {
                    0
                };
                assert(q.echoes.len() == p.echoes.len() + 1 - d);
                assert forall|i: int| 0 <= i < q.echoes.len() implies #[trigger] q.echoes[i]
                    == echo_of(sent[i + sent.len() - q.echoes.len()]) by {
                    if i < q.echoes.len() - 1 {
                        assert(q.echoes[i] == p.echoes[i + d]);
                    }
                }
                assert forall|i: int|
                    0 <= i < sent.len() - q.echoes.len() && i >= sent.len() - MAX_ECHOES implies (
                #[trigger] sent[i]).1 + ECHO_SPAN < now by {
                    assert(sent[i] == old_sent[i]);
                }
            },
            Report::Phone(data) => {
                lemma_fresh(p.echoes, at);
                if protocol::is_valid(data) {
                    let k = p.echoes.len() - q.echoes.len();
                    assert forall|i: int| 0 <= i < q.echoes.len() implies #[trigger] q.echoes[i]
                        == echo_of(sent[i + sent.len() - q.echoes.len()]) by {
                        assert(q.echoes[i] == p.echoes[i + k]);
                    }
                    assert forall|i: int|
                        0 <= i < sent.len() - q.echoes.len() && i >= sent.len()
                            - MAX_ECHOES implies (#[trigger] sent[i]).1 + ECHO_SPAN < now by {
                        let j = i - (sent.len() - p.echoes.len());
                        if j >= 0 {
                            assert(p.echoes[j] == echo_of(sent[i]));
                            assert(p.echoes[j].1 < at);
                        }
                    }
                }
            },
            _ => {},
        }
    }
}

/// Whatever a policy was told, in whatever order: a text is taken from the phone
/// exactly where it may be shared, is not what the desktop holds and is none of the
/// last sixty-four that the phone got, unless that was more than three seconds ago.
/// Texts with the same digest are not told apart.
pub proof fn law_phone_texts_are_judged_by_history(
    baseline: Option<Seq<u8>>,
    reports: Seq<(u128, Report)>,
    data: Seq<u8>,
    now: u128,
)
    requires
        in_time(reports, now),
        now <= MAX_SPAN,
    ensures
        policy_after(baseline, reports).accepts(data, now) <==> protocol::is_valid(data)
            && digest_of(held_after(baseline, reports)) != Some(sha256(data)) && !sent_lately(
            texts_sent(reports),
            data,
            now,
        ),
{
    lemma_remembers(baseline, reports, now);
    let p = policy_after(baseline, reports);
    let sent = texts_sent(reports);
    let n = sent.len() - p.echoes.len();
    assert forall|i: int, j: int| 0 <= i < j < p.echoes.len() implies (#[trigger] p.echoes[i]).1
        <= (#[trigger] p.echoes[j]).1 by {
        assert(p.echoes[i] == echo_of(sent[i + n]) && p.echoes[j] == echo_of(sent[j + n]));
    }
    law_only_recent_echoes_are_refused(p, data, now);
    if p.awaits(data, now) {
        let i = choose|i: int|
            0 <= i < p.echoes.len() && (#[trigger] p.echoes[i]).0 == sha256(data)
                && p.echoes[i].1 >= now;
        assert(p.echoes[i] == echo_of(sent[i + n]));
        assert(sha256(sent[i + n].0) == sha256(data));
    }
    if sent_lately(sent, data, now) {
        let i = choose|i: int|
            0 <= i < sent.len() && i >= sent.len() - MAX_ECHOES && sha256((#[trigger] sent[i]).0)
                == sha256(data) && now <= sent[i].1 + ECHO_SPAN;
        assert(p.echoes[i - n] == echo_of(sent[i]));
    }
}

/// Whatever a policy was told, in whatever order: what is on the desktop is shared
/// exactly where it is a text that may be shared and not the one that was there
/// before. Texts with the same digest are not told apart.
pub proof fn law_desktop_texts_are_judged_by_history(
    baseline: Option<Seq<u8>>,
    reports: Seq<(u128, Report)>,
    data: Option<Seq<u8>>,
    now: u128,
)
    requires
        in_time(reports, now),
        now <= MAX_SPAN,
    ensures
        policy_after(baseline, reports).shares(data) <==> {
            &&& data matches Some(d) && protocol::is_valid(d)
            &&& held_after(baseline, reports) matches Some(h) ==> sha256(h) != sha256(data->0)
        },
{
    lemma_remembers(baseline, reports, now);
}

/// What a policy is told changes what it says it changes: a text on the desktop is
/// what it holds from then on, and is not remembered as sent; a text that was sent is
/// remembered last, for three seconds from then on, and the desktop stays.
pub proof fn law_reports_change_one_thing(
    p: PolicyView,
    data: Seq<u8>,
    other: Option<Seq<u8>>,
    at: u128,
)
    requires
        at <= MAX_SPAN,
    ensures
        p.holding(Some(data)).desktop == Some(sha256(data)),
        p.holding(None).desktop is None,
        p.holding(other).echoes == p.echoes,
        p.sent(data, at).desktop == p.desktop,
        p.sent(data, at).echoes.len() == if p.echoes.len() == 64 {
            64
        } else {
            p.echoes.len() + 1
        },
        p.sent(data, at).echoes.last() == (sha256(data), (at + 3_000_000_000) as u128),
        PolicyView::new(other).desktop == p.holding(other).desktop,
        PolicyView::new(other).echoes.len() == 0,
        p.heard(data, at).desktop == p.desktop,
        !protocol::is_valid(data) ==> p.heard(data, at) == p,
{
}

} // verus!
