//! One clipboard session: copies go to the phone, copies come from it, one decision
//! at a time.
use crate::clock::{self, time_left, MAX_SPAN};
use crate::lists;
use crate::protocol::{self, Message};
use crate::sync::{self, Policy, PolicyView};
use crate::wayland::{Snapshot, SnapshotView};
use vstd::prelude::*;
use vstd::slice::slice_to_vec;

verus! {

/// How many copies may wait to be acknowledged.
pub const MAX_PENDING: usize = 64;

/// How long the phone may take to acknowledge a copy, in nanoseconds.
pub const ACK_SPAN: u128 = 5000000000;

/// What the session is about to do.
pub enum Step {
    /// Wait for what happens.
    Waiting,
    /// See whether this copy may go to the phone.
    Checking(Vec<u8>),
    /// Send this copy to the phone.
    Writing(Vec<u8>),
    /// See whether this copy from the phone may be taken.
    Taking(Vec<u8>),
    /// Select this copy from the phone.
    Applying(Vec<u8>),
    /// End.
    Ended(&'static str),
}

/// What a [`Step`] holds.
pub enum StepView {
    Waiting,
    Checking(Seq<u8>),
    Writing(Seq<u8>),
    Taking(Seq<u8>),
    Applying(Seq<u8>),
    Ended(Seq<char>),
}

impl View for Step {
    type V = StepView;

    open spec fn view(&self) -> StepView {
        match self {
            Step::Waiting => StepView::Waiting,
            Step::Checking(d) => StepView::Checking(d@),
            Step::Writing(d) => StepView::Writing(d@),
            Step::Taking(d) => StepView::Taking(d@),
            Step::Applying(d) => StepView::Applying(d@),
            Step::Ended(e) => StepView::Ended(e@),
        }
    }
}

/// How the attempt to write to the phone went.
pub enum Written {
    Done,
    TimedOut,
    Failed,
}

/// What happened.
pub enum Event {
    /// The server on the phone ended.
    Exited,
    /// The oldest copy was not acknowledged in time.
    Overdue,
    /// The selection changed, or the clipboard is gone.
    Desktop(Option<Snapshot>),
    /// The phone said something, or the channel failed or is gone.
    Message(Option<Result<Message, &'static str>>),
    /// Another mirror is in the way, or not. `current` is the revision of the
    /// selection by now.
    Checked { result: Result<(), &'static str>, current: u64 },
    /// The copy was written.
    Written(Written),
    /// The copy was selected, or could not be any more.
    Applied(Result<bool, &'static str>),
}

/// What is to be done.
pub enum Action {
    /// Wait for the server's end, the deadline, a selection or a message, in this
    /// order.
    Wait,
    /// See whether another mirror is in the way.
    Check,
    /// Write this to the phone, within three seconds.
    Write(Vec<u8>),
    /// Select this text, if the revision is still the same.
    Apply { revision: u64, data: Vec<u8> },
    /// End the session.
    End(&'static str),
}

/// What an [`Action`] holds.
pub enum ActionView {
    Wait,
    Check,
    Write(Seq<u8>),
    Apply { revision: u64, data: Seq<u8> },
    End(Seq<char>),
}

impl View for Action {
    type V = ActionView;

    open spec fn view(&self) -> ActionView {
        match self {
            Action::Wait => ActionView::Wait,
            Action::Check => ActionView::Check,
            Action::Write(frame) => ActionView::Write(frame@),
            Action::Apply { revision, data } => ActionView::Apply {
                revision: *revision,
                data: data@,
            },
            Action::End(e) => ActionView::End(e@),
        }
    }
}

/// A session under way.
pub struct Session {
    policy: Policy,
    revision: u64,
    sequence: u64,
    pending: Vec<(u64, u128)>,
    step: Step,
}

/// What a [`Session`] holds.
pub struct SessionView {
    pub policy: PolicyView,
    /// The revision of the selection.
    pub revision: u64,
    /// The number of the last copy that was sent.
    pub sequence: u64,
    /// The copies that were not acknowledged, by number, each with its deadline.
    pub pending: Seq<(u64, u128)>,
    pub step: StepView,
}

impl View for Session {
    type V = SessionView;

    closed spec fn view(&self) -> SessionView {
        SessionView {
            policy: self.policy@,
            revision: self.revision,
            sequence: self.sequence,
            pending: self.pending@,
            step: self.step@,
        }
    }
}

/// The class of copies with a number.
pub open spec fn numbered(seq: u64) -> spec_fn((u64, u128)) -> bool {
    |p: (u64, u128)| p.0 == seq
}

impl SessionView {
    /// The copies that wait are numbered in the order in which they were sent, and
    /// no more wait than may. A copy that is being sent may be shared and has a new
    /// number.
    pub open spec fn inv(self) -> bool {
        &&& self.policy.inv()
        &&& self.pending.len() <= MAX_PENDING
        &&& forall|i: int, j: int|
            0 <= i < j < self.pending.len() ==> (#[trigger] self.pending[i]).0 < (
            #[trigger] self.pending[j]).0
        &&& forall|i: int|
            0 <= i < self.pending.len() ==> 0 < (#[trigger] self.pending[i]).0 <= self.sequence
        &&& self.step matches StepView::Writing(d) ==> {
            &&& protocol::is_valid(d)
            &&& self.sequence > 0
            &&& self.pending.len() < MAX_PENDING
            &&& forall|i: int|
                0 <= i < self.pending.len() ==> (#[trigger] self.pending[i]).0 < self.sequence
        }
    }

    /// A session begins with what is selected.
    pub open spec fn new(baseline: SnapshotView) -> SessionView {
        SessionView {
            policy: PolicyView::new(baseline.data),
            revision: baseline.revision,
            sequence: 0,
            pending: Seq::empty(),
            step: StepView::Waiting,
        }
    }

    /// Another step is next.
    pub open spec fn at(self, step: StepView) -> SessionView {
        SessionView { step, ..self }
    }

    /// The session ends.
    pub open spec fn ending(self, e: Seq<char>) -> SessionView {
        self.at(StepView::Ended(e))
    }

    /// The desktop holds `data`, as far as the session is concerned.
    pub open spec fn holding(self, data: Option<Seq<u8>>) -> SessionView {
        SessionView { policy: self.policy.holding(data), step: StepView::Waiting, ..self }
    }

    /// The selection changed.
    pub open spec fn selected(self, snapshot: SnapshotView) -> SessionView {
        let s = SessionView { revision: snapshot.revision, ..self };
        if !snapshot.ready {
            s
        } else if snapshot.own {
            match snapshot.data {
                Some(d) => s.holding(Some(d)),
                None => s,
            }
        } else {
            match snapshot.data {
                Some(d) => s.at(StepView::Checking(d)),
                None => s.holding(None),
            }
        }
    }

    /// No mirror is in the way of the copy `data`.
    pub open spec fn cleared(self, data: Seq<u8>, current: u64) -> SessionView {
        if current != self.revision {
            self.at(StepView::Waiting)
        } else if !self.policy.shares(Some(data)) {
            self.holding(Some(data))
        } else if self.pending.len() >= MAX_PENDING {
            self.holding(Some(data)).ending(
                "Phone is not acknowledging clipboard updates; reconnect it"@,
            )
        } else if self.sequence == u64::MAX {
            self.holding(Some(data)).ending("Clipboard sequence exhausted; reconnect"@)
        } else {
            SessionView {
                sequence: (self.sequence + 1) as u64,
                step: StepView::Writing(data),
                ..self.holding(Some(data))
            }
        }
    }

    /// The copy `data` was written.
    pub open spec fn written(self, data: Seq<u8>, result: Written, now: u128) -> SessionView {
        match result {
            Written::TimedOut => self.ending("Clipboard write timed out"@),
            Written::Failed => self.ending("Android clipboard write failed"@),
            Written::Done => SessionView {
                policy: self.policy.sent(data, now),
                pending: self.pending.push((self.sequence, (now + ACK_SPAN) as u128)),
                step: StepView::Waiting,
                ..self
            },
        }
    }

    /// The phone acknowledged the copy with this number.
    pub open spec fn acknowledged(self, seq: u64) -> SessionView {
        match lists::first_where(self.pending, numbered(seq)) {
            Some(i) => SessionView { pending: self.pending.remove(i), ..self },
            None => self.ending(
                "Unexpected clipboard acknowledgement; reconnect the server"@,
            ),
        }
    }

    /// The phone sent a copy.
    pub open spec fn heard(self, data: Seq<u8>, now: u128) -> SessionView {
        let s = SessionView { policy: self.policy.heard(data, now), ..self };
        if self.policy.accepts(data, now) {
            s.at(StepView::Taking(data))
        } else {
            s
        }
    }

    /// The phone said something.
    pub open spec fn told(
        self,
        message: Option<Result<Message, &'static str>>,
        now: u128,
    ) -> SessionView {
        match message {
            None => self.ending("Android control channel closed"@),
            Some(Err(e)) => self.ending(e@),
            Some(Ok(Message::Ack(seq))) => self.acknowledged(seq),
            Some(Ok(Message::Text(Some(d)))) => self.heard(d@, now),
            Some(Ok(Message::Text(None))) => self,
        }
    }

    /// The state after an event at the time `now`. An event for which the session
    /// does not wait changes nothing.
    pub open spec fn next(self, event: Event, now: u128) -> SessionView {
        match (self.step, event) {
            (StepView::Waiting, Event::Exited) => self.ending(
                "Android server exited; reconnecting"@,
            ),
            (StepView::Waiting, Event::Overdue) => self.ending(
                "Phone stopped acknowledging updates; unlock or reconnect it"@,
            ),
            (StepView::Waiting, Event::Desktop(None)) => self.ending(
                "Wayland clipboard closed; restart bridge"@,
            ),
            (StepView::Waiting, Event::Desktop(Some(snapshot))) => self.selected(snapshot@),
            (StepView::Waiting, Event::Message(message)) => self.told(message, now),
            (StepView::Checking(d), Event::Checked { result, current }) => match result {
                Err(e) => self.ending(e@),
                Ok(()) => self.cleared(d, current),
            },
            (StepView::Writing(d), Event::Written(result)) => self.written(d, result, now),
            (StepView::Taking(d), Event::Checked { result, current: _ }) => match result {
                Err(e) => self.ending(e@),
                Ok(()) => self.at(StepView::Applying(d)),
            },
            (StepView::Applying(d), Event::Applied(result)) => match result {
                Err(e) => self.ending(e@),
                Ok(selected) => if selected {
                    self.holding(Some(d))
                } else {
                    self.at(StepView::Waiting)
                },
            },
            _ => self,
        }
    }

    /// When the oldest copy must be acknowledged.
    pub open spec fn deadline(self) -> Option<u128> {
        if self.pending.len() > 0 {
            Some(self.pending[0].1)
        } else {
            None
        }
    }

    /// What is to be done in the present state.
    pub open spec fn action(self) -> ActionView {
        match self.step {
            StepView::Waiting => ActionView::Wait,
            StepView::Checking(_) => ActionView::Check,
            StepView::Writing(d) => ActionView::Write(protocol::frame_of(d, self.sequence)),
            StepView::Taking(_) => ActionView::Check,
            StepView::Applying(d) => ActionView::Apply { revision: self.revision, data: d },
            StepView::Ended(e) => ActionView::End(e),
        }
    }
}

/// The first error among what the phone said before the session began.
pub open spec fn first_error(queued: Seq<Result<Message, &'static str>>) -> Option<Seq<char>>
    decreases queued.len(),
{
    if queued.len() == 0 {
        None
    } else {
        match queued[0] {
            Err(e) => Some(e@),
            Ok(_) => first_error(queued.drop_first()),
        }
    }
}

impl Session {
    /// A session begins with what is selected. Nothing of that is shared, and what
    /// the phone said before is dropped, unless the channel failed.
    pub fn begin(baseline: &Snapshot, queued: &Vec<Result<Message, &'static str>>) -> (r: Result<
        Session,
        &'static str,
    >)
        ensures
            match r {
                Ok(s) => first_error(queued@) is None && s@ == SessionView::new(baseline@)
                    && s@.inv(),
                Err(e) => first_error(queued@) == Some(e@),
            },
    {
        let mut i: usize = 0;
        assert(queued@.skip(0) == queued@);
        while i < queued.len()
            invariant
                i <= queued@.len(),
                first_error(queued@) == first_error(queued@.skip(i as int)),
            decreases queued@.len() - i,
        {
            assert(queued@.skip(i as int)[0] == queued@[i as int]);
            assert(queued@.skip(i as int).drop_first() == queued@.skip(i + 1));
            match &queued[i] {
                Err(e) => {
                    return Err(*e);
                },
                Ok(_) => {},
            }
            i += 1;
        }
        Ok(
            Session {
                policy: Policy::new(baseline.bytes()),
                revision: baseline.revision,
                sequence: 0,
                pending: Vec::new(),
                step: Step::Waiting,
            },
        )
    }

    fn end(&mut self, e: &'static str)
        ensures
            final(self)@ == old(self)@.ending(e@),
    {
        self.step = Step::Ended(e);
    }

    fn hold(&mut self, data: Option<&[u8]>) -> (r: bool)
        ensures
            final(self)@ == old(self)@.holding(sync::content(data)),
            r == old(self)@.policy.shares(sync::content(data)),
    {
        self.step = Step::Waiting;
        self.policy.desktop(data)
    }

    fn selected(&mut self, snapshot: Snapshot)
        requires
            old(self)@.step is Waiting,
        ensures
            final(self)@ == old(self)@.selected(snapshot@),
    {
        self.revision = snapshot.revision;
        if !snapshot.ready {
            return;
        }
        if snapshot.own {
            match snapshot.bytes() {
                Some(d) => {
                    self.policy.applied(d);
                },
                None => {},
            }
            return;
        }
        match snapshot.data {
            Some(d) => {
                self.step = Step::Checking(d);
            },
            None => {
                self.hold(None);
            },
        }
    }

    fn cleared(&mut self, data: Vec<u8>, current: u64)
        requires
            old(self)@.inv(),
        ensures
            final(self)@ == old(self)@.cleared(data@, current),
            final(self)@.inv(),
    {
        if current != self.revision {
            self.step = Step::Waiting;
            return;
        }
        if !self.hold(Some(data.as_slice())) {
            return;
        }
        if self.pending.len() >= MAX_PENDING {
            self.end("Phone is not acknowledging clipboard updates; reconnect it");
            return;
        }
        if self.sequence == u64::MAX {
            self.end("Clipboard sequence exhausted; reconnect");
            return;
        }
        self.sequence += 1;
        self.step = Step::Writing(data);
    }

    fn written(&mut self, data: Vec<u8>, result: Written, now: u128)
        requires
            old(self)@.inv(),
            old(self)@.step == StepView::Writing(data@),
            now <= MAX_SPAN,
        ensures
            final(self)@ == old(self)@.written(data@, result, now),
            final(self)@.inv(),
    {
        match result {
            Written::TimedOut => self.end("Clipboard write timed out"),
            Written::Failed => self.end("Android clipboard write failed"),
            Written::Done => {
                self.policy.sent_at(&data, now);
                self.pending.push((self.sequence, now + ACK_SPAN));
                self.step = Step::Waiting;
            },
        }
    }

    fn acknowledged(&mut self, seq: u64)
        requires
            old(self)@.inv(),
            old(self)@.step is Waiting,
        ensures
            final(self)@ == old(self)@.acknowledged(seq),
            final(self)@.inv(),
    {
        let ghost f = numbered(seq);
        let ghost all = self.pending@;
        let mut i: usize = 0;
        while i < self.pending.len()
            invariant
                i <= self.pending@.len(),
                f == numbered(seq),
                all == self.pending@,
                *self == *old(self),
                old(self)@.inv(),
                old(self)@.step is Waiting,
                forall|j: int| 0 <= j < i ==> !f(#[trigger] all[j]),
            decreases self.pending@.len() - i,
        {
            if self.pending[i].0 == seq {
                proof {
                    lists::lemma_is_first(all, f, i as int);
                }
                self.pending.remove(i);
                return;
            }
            i += 1;
        }
        proof {
            lists::lemma_none_is_first(all, f);
        }
        self.end("Unexpected clipboard acknowledgement; reconnect the server");
    }

    fn told(&mut self, message: Option<Result<Message, &'static str>>, now: u128)
        requires
            old(self)@.inv(),
            old(self)@.step is Waiting,
        ensures
            final(self)@ == old(self)@.told(message, now),
            final(self)@.inv(),
    {
        match message {
            None => self.end("Android control channel closed"),
            Some(Err(e)) => self.end(e),
            Some(Ok(Message::Ack(seq))) => self.acknowledged(seq),
            Some(Ok(Message::Text(Some(d)))) => {
                if self.policy.phone_at(&d, now) {
                    self.step = Step::Taking(d);
                }
            },
            Some(Ok(Message::Text(None))) => {},
        }
    }

    fn action(&self) -> (r: Action)
        requires
            self@.inv(),
        ensures
            r@ == self@.action(),
    {
        match &self.step {
            Step::Waiting => Action::Wait,
            Step::Checking(_) => Action::Check,
            Step::Writing(d) => match protocol::write(d, self.sequence) {
                Ok(frame) => Action::Write(frame),
                Err(e) => Action::End(e),
            },
            Step::Taking(_) => Action::Check,
            Step::Applying(d) => Action::Apply { revision: self.revision, data: slice_to_vec(d) },
            Step::Ended(e) => Action::End(*e),
        }
    }

    /// Takes an event at the time `now`, and says what is to be done next.
    pub fn active_at(&mut self, event: Event, now: u128) -> (r: Action)
        requires
            old(self)@.inv(),
            now <= MAX_SPAN,
        ensures
            final(self)@.inv(),
            final(self)@ == old(self)@.next(event, now),
            r@ == final(self)@.action(),
    {
        let mut step = Step::Waiting;
        std::mem::swap(&mut step, &mut self.step);
        match (step, event) {
            (Step::Waiting, Event::Exited) => self.end("Android server exited; reconnecting"),
            (Step::Waiting, Event::Overdue) => self.end(
                "Phone stopped acknowledging updates; unlock or reconnect it",
            ),
            (Step::Waiting, Event::Desktop(None)) => self.end(
                "Wayland clipboard closed; restart bridge",
            ),
            (Step::Waiting, Event::Desktop(Some(snapshot))) => self.selected(snapshot),
            (Step::Waiting, Event::Message(message)) => self.told(message, now),
            (Step::Checking(d), Event::Checked { result, current }) => match result {
                Err(e) => self.end(e),
                Ok(()) => {
                    self.cleared(d, current);
                },
            },
            (Step::Writing(d), Event::Written(result)) => {
                let copy = slice_to_vec(&d);
                self.step = Step::Writing(copy);
                self.written(d, result, now);
            },
            (Step::Taking(d), Event::Checked { result, current: _ }) => match result {
                Err(e) => self.end(e),
                Ok(()) => {
                    self.step = Step::Applying(d);
                },
            },
            (Step::Applying(d), Event::Applied(result)) => match result {
                Err(e) => self.end(e),
                Ok(selected) => if selected {
                    self.policy.applied(&d);
                },
            },
            (other, _) => {
                self.step = other;
            },
        }
        self.action()
    }

    /// Takes an event, and says what is to be done next.
    pub fn active(&mut self, event: Event) -> (r: Action)
        requires
            old(self)@.inv(),
        ensures
            final(self)@.inv(),
            exists|now: u128|
                now <= MAX_SPAN && final(self)@ == #[trigger] old(self)@.next(event, now),
            r@ == final(self)@.action(),
    {
        let now: u128 = self.policy.now();
        let ghost e = event;
        let r = self.active_at(event, now);
        assert(self@ == old(self)@.next(e, now));
        r
    }

    /// When the oldest copy must be acknowledged, in nanoseconds since the session
    /// began.
    pub fn deadline(&self) -> (r: Option<u128>)
        ensures
            r == self@.deadline(),
    {
        if self.pending.len() > 0 {
            Some(self.pending[0].1)
        } else {
            None
        }
    }

    /// How long the oldest copy may still wait to be acknowledged, in nanoseconds.
    pub fn patience(&self) -> (r: Option<u128>)
        ensures
            exists|now: u128|
                now <= MAX_SPAN && r == #[trigger] clock::left(self@.deadline(), now),
    {
        let now: u128 = self.policy.now();
        time_left(self.deadline(), now)
    }
}

// ---------------------------------------------------------------------------
// Laws
// ---------------------------------------------------------------------------
/// What is selected when a session begins is not sent, whenever it is seen again
/// before another copy.
pub proof fn law_baseline_is_not_sent(baseline: SnapshotView, current: u64)
    ensures
        baseline.data matches Some(d) ==> !(SessionView::new(baseline).cleared(d, current).step
            is Writing),
{
    sync::law_baseline_is_not_shared(baseline.data);
}

/// A copy that the desktop holds is not sent again, be it that it was sent before or
/// that it came from the phone.
pub proof fn law_held_copy_is_not_sent_again(s: SessionView, data: Seq<u8>, current: u64)
    ensures
        !(s.holding(Some(data)).cleared(data, current).step is Writing),
{
    sync::law_held_text_is_not_shared_again(s.policy, Some(data));
}

/// A copy that was sent is not taken back from the phone in the next three seconds.
pub proof fn law_sent_copy_is_not_taken_back(
    s: SessionView,
    data: Seq<u8>,
    at: u128,
    now: u128,
)
    requires
        at <= MAX_SPAN,
        now <= at + sync::ECHO_SPAN,
    ensures
        !(s.written(data, Written::Done, at).heard(data, now).step is Taking),
{
    sync::law_sent_text_is_not_taken_back(s.policy, data, at, now);
}

/// A copy goes to the phone only after it was seen that no other mirror is in the
/// way and that it is still selected, and under the next number.
pub proof fn law_copies_are_sent_after_the_check(s: SessionView, event: Event, now: u128)
    ensures
        s.next(event, now).step is Writing && !(s.step is Writing) ==> {
            &&& s.step is Checking
            &&& event matches Event::Checked { result: Ok(_), current } && current == s.revision
            &&& s.next(event, now).sequence == s.sequence + 1
        },
        s.next(event, now).sequence != s.sequence ==> s.next(event, now).step is Writing,
{
}

/// A copy from the phone is selected only after it was seen that no other mirror is
/// in the way.
pub proof fn law_copies_are_taken_after_the_check(s: SessionView, event: Event, now: u128)
    ensures
        s.next(event, now).step matches StepView::Applying(d) ==> s.step is Applying || {
            &&& s.step == StepView::Taking(d)
            &&& event matches Event::Checked { result: Ok(_), .. }
        },
{
}

/// A copy is acknowledged once: a second acknowledgement ends the session.
pub proof fn law_copies_are_acknowledged_once(s: SessionView, seq: u64)
    requires
        s.inv(),
    ensures
        s.acknowledged(seq).acknowledged(seq).step is Ended,
{
    let f = numbered(seq);
    lists::lemma_first_where(s.pending, f);
    match lists::first_where(s.pending, f) {
        Some(i) => {
            let rest = s.pending.remove(i);
            assert forall|j: int| 0 <= j < rest.len() implies !f(#[trigger] rest[j]) by {
                if j < i {
                    assert(rest[j] == s.pending[j]);
                } else {
                    assert(rest[j] == s.pending[j + 1]);
                    assert(s.pending[i].0 < s.pending[j + 1].0);
                }
            }
            lists::lemma_none_is_first(rest, f);
        },
        None => {
            lists::lemma_none_is_first(s.pending, f);
        },
    }
}

/// A session that has ended does nothing more.
pub proof fn law_ended_session_stays_ended(s: SessionView, event: Event, now: u128)
    requires
        s.step is Ended,
    ensures
        s.next(event, now) == s,
{
}

/// A session begins with what is selected: under its revision, with nothing sent and
/// nothing awaited.
pub proof fn law_sessions_begin_with_the_selection(baseline: SnapshotView)
    ensures
        ({
            let s = SessionView::new(baseline);
            &&& s.revision == baseline.revision
            &&& s.sequence == 0
            &&& s.pending.len() == 0
            &&& s.step is Waiting
            &&& s.policy.echoes.len() == 0
            &&& s.policy.desktop == match baseline.data {
                Some(d) => Some(sync::sha256(d)),
                None => None,
            }
        }),
{
}

/// A session does not begin where the channel failed before, and the first failure
/// is told.
pub proof fn law_early_failures_are_told(queued: Seq<Result<Message, &'static str>>)
    ensures
        match first_error(queued) {
            Some(e) => exists|i: int|
                0 <= i < queued.len() && (#[trigger] queued[i] matches Err(f) && f@ == e) && forall|
                    j: int,
                |
                    0 <= j < i ==> #[trigger] queued[j] is Ok,
            None => forall|i: int| 0 <= i < queued.len() ==> #[trigger] queued[i] is Ok,
        },
    decreases queued.len(),
{
    if queued.len() > 0 {
        let rest = queued.drop_first();
        law_early_failures_are_told(rest);
        match queued[0] {
            Err(_) => {},
            Ok(_) => match first_error(rest) {
                Some(e) => {
                    let i = choose|i: int|
                        0 <= i < rest.len() && (#[trigger] rest[i] matches Err(f) && f@ == e)
                            && forall|j: int| 0 <= j < i ==> #[trigger] rest[j] is Ok;
                    assert(queued[i + 1] == rest[i]);
                    assert forall|j: int| 0 <= j < i + 1 implies #[trigger] queued[j] is Ok by {
                        if j > 0 {
                            assert(queued[j] == rest[j - 1]);
                        }
                    }
                },
                None => {
                    assert forall|i: int| 0 <= i < queued.len() implies #[trigger] queued[i] is Ok by {
                        if i > 0 {
                            assert(queued[i] == rest[i - 1]);
                        }
                    }
                },
            },
        }
    }
}

/// Whatever is selected, a waiting session takes its revision, be it the bridge's own
/// text or another's, complete or not, with a text or without. A text of another's is
/// to be sent after a check; the bridge's own is what the desktop holds; where nothing
/// is selected the desktop holds nothing; and a selection that is not complete changes
/// nothing else.
pub proof fn law_selections_are_followed(s: SessionView, snapshot: Snapshot, now: u128)
    requires
        s.step is Waiting,
    ensures
        ({
            let v = snapshot@;
            let t = s.next(Event::Desktop(Some(snapshot)), now);
            &&& t.revision == v.revision
            &&& t.sequence == s.sequence
            &&& t.pending == s.pending
            &&& t.policy.echoes == s.policy.echoes
            &&& !v.ready ==> t.policy == s.policy && t.step is Waiting
            &&& v.ready && v.own ==> t.step is Waiting && (v.data matches Some(d) ==> t.policy.desktop
                == Some(sync::sha256(d))) && (v.data is None ==> t.policy == s.policy)
            &&& v.ready && !v.own ==> match v.data {
                Some(d) => t.step == StepView::Checking(d) && t.policy == s.policy,
                None => t.step is Waiting && t.policy.desktop is None,
            }
        }),
{
}

/// A copy from the phone is asked for at the revision of the last selection that was
/// reported, so that a clipboard that still shows this selection, complete, takes it.
pub proof fn law_phone_copies_meet_the_last_selection(
    s: SessionView,
    snapshot: Snapshot,
    data: Vec<u8>,
    current: u64,
    now: u128,
    desktop: crate::wayland::StateView,
)
    requires
        s.step is Waiting,
        snapshot@.own || !snapshot@.ready || snapshot@.data is None,
        s.next(Event::Desktop(Some(snapshot)), now).policy.accepts(data@, now),
    ensures
        ({
            let a = s.next(Event::Desktop(Some(snapshot)), now);
            let b = a.next(Event::Message(Some(Ok(Message::Text(Some(data))))), now);
            let c = b.next(Event::Checked { result: Ok(()), current }, now);
            &&& b.action() is Check
            &&& c.action() == (ActionView::Apply { revision: snapshot@.revision, data: data@ })
            &&& desktop.snapshot == snapshot@ && snapshot@.ready ==> desktop.requested(
                crate::wayland::Request::Write {
                    revision: c.action()->Apply_revision,
                    data,
                    closed: false,
                },
            ).1 is Accepted
        }),
{
}

/// A copy of the desktop goes to the phone once the check is passed, where it is still
/// the one that is selected, new and shareable, no more than sixty-four copies wait
/// and there is a number left. It goes out as a frame with the next number and the
/// copy itself. From then on it is what the desktop holds.
pub proof fn law_copies_are_sent_as_they_are(
    s: SessionView,
    data: Seq<u8>,
    current: u64,
    now: u128,
)
    requires
        s.step == StepView::Checking(data),
    ensures
        ({
            let t = s.next(Event::Checked { result: Ok(()), current }, now);
            let new = protocol::is_valid(data) && s.policy.desktop != Some(sync::sha256(data));
            &&& current != s.revision ==> t == (SessionView { step: StepView::Waiting, ..s })
            &&& current == s.revision ==> t.policy.desktop == Some(sync::sha256(data))
                && t.policy.echoes == s.policy.echoes
            &&& current == s.revision && !new ==> t.step is Waiting && t.sequence == s.sequence
            &&& current == s.revision && new && s.pending.len() >= 64 ==> t.step
                == StepView::Ended(
                "Phone is not acknowledging clipboard updates; reconnect it"@,
            )
            &&& current == s.revision && new && s.pending.len() < 64 && s.sequence == u64::MAX
                ==> t.step == StepView::Ended("Clipboard sequence exhausted; reconnect"@)
            &&& current == s.revision && new && s.pending.len() < 64 && s.sequence < u64::MAX ==> {
                &&& t.sequence == s.sequence + 1
                &&& t.action() matches ActionView::Write(frame) && {
                    &&& frame.len() == 14 + data.len()
                    &&& frame[0] == 9
                    &&& protocol::eight_bytes(frame, 1) == s.sequence + 1
                    &&& frame[9] == 0
                    &&& protocol::four_bytes(frame, 10) == data.len()
                    &&& frame.skip(14) == data
                }
            }
            &&& t.revision == s.revision
            &&& t.pending == s.pending
        }),
{
    let t = s.next(Event::Checked { result: Ok(()), current }, now);
    if let ActionView::Write(frame) = t.action() {
        protocol::law_frames_describe_themselves(data, t.sequence, Seq::empty());
        assert(frame + Seq::<u8>::empty() =~= frame);
        assert(frame.skip(14) =~= frame.subrange(14, 14 + data.len() as int));
    }
}

/// A copy that was written waits for its acknowledgement, as the last of those that
/// wait, for five seconds, and is remembered as sent. One that could not be written
/// ends the session.
pub proof fn law_written_copies_wait(s: SessionView, data: Seq<u8>, now: u128)
    requires
        s.step == StepView::Writing(data),
        now <= MAX_SPAN,
    ensures
        ({
            let t = s.next(Event::Written(Written::Done), now);
            &&& t.pending == s.pending.push((s.sequence, (now + 5_000_000_000) as u128))
            &&& t.policy == s.policy.sent(data, now)
            &&& t.step is Waiting
            &&& t.sequence == s.sequence
            &&& t.revision == s.revision
        }),
        s.next(Event::Written(Written::TimedOut), now).step == StepView::Ended(
            "Clipboard write timed out"@,
        ),
        s.next(Event::Written(Written::Failed), now).step == StepView::Ended(
            "Android clipboard write failed"@,
        ),
{
}

/// An acknowledged copy waits no more, and every other one still does; an
/// acknowledgement of a copy that does not wait ends the session.
pub proof fn law_acknowledged_copies_wait_no_more(s: SessionView, seq: u64, now: u128)
    requires
        s.inv(),
        s.step is Waiting,
    ensures
        ({
            let t = s.next(Event::Message(Some(Ok(Message::Ack(seq)))), now);
            let waits = exists|i: int|
                0 <= i < s.pending.len() && (#[trigger] s.pending[i]).0 == seq;
            &&& waits ==> {
                &&& t.step is Waiting
                &&& t.pending.len() == s.pending.len() - 1
                &&& forall|p: (u64, u128)| #[trigger]
                    t.pending.contains(p) <==> s.pending.contains(p) && p.0 != seq
                &&& t == (SessionView { pending: t.pending, ..s })
            }
            &&& !waits ==> t.step == StepView::Ended(
                "Unexpected clipboard acknowledgement; reconnect the server"@,
            )
        }),
{
    let f = numbered(seq);
    lists::lemma_first_where(s.pending, f);
    match lists::first_where(s.pending, f) {
        Some(i) => {
            let rest = s.pending.remove(i);
            assert(s.pending[i].0 == seq);
            assert forall|p: (u64, u128)| #[trigger]
                rest.contains(p) <==> s.pending.contains(p) && p.0 != seq by {
                if rest.contains(p) {
                    let j = choose|j: int| 0 <= j < rest.len() && rest[j] == p;
                    let k = if j < i {
                        j
                    } else {
                        j + 1
                    };
                    assert(s.pending[k] == p);
                    if k < i {
                        assert(s.pending[k].0 < s.pending[i].0);
                    } else {
                        assert(s.pending[i].0 < s.pending[k].0);
                    }
                }
                if s.pending.contains(p) && p.0 != seq {
                    let k = choose|k: int| 0 <= k < s.pending.len() && s.pending[k] == p;
                    let j = if k < i {
                        k
                    } else {
                        k - 1
                    };
                    assert(rest[j] == p);
                }
            }
        },
        None => {
            assert forall|i: int| 0 <= i < s.pending.len() implies (#[trigger] s.pending[i]).0
                != seq by {
                assert(!f(s.pending[i]));
            }
        },
    }
}

/// A copy from the phone is taken, after a check, exactly where the policy takes it,
/// and is what the desktop holds once it was selected; where it could not be selected
/// any more, the desktop holds what it held. A copy that may not be shared changes
/// nothing.
pub proof fn law_phone_copies_are_taken_as_they_are(
    s: SessionView,
    data: Vec<u8>,
    current: u64,
    now: u128,
)
    requires
        s.step is Waiting,
    ensures
        ({
            let t = s.next(Event::Message(Some(Ok(Message::Text(Some(data))))), now);
            let u = t.next(Event::Checked { result: Ok(()), current }, now);
            let v = u.next(Event::Applied(Ok(true)), now);
            let w = u.next(Event::Applied(Ok(false)), now);
            &&& !s.policy.accepts(data@, now) ==> t == (SessionView { policy: t.policy, ..s })
                && t.policy.desktop == s.policy.desktop
            &&& s.policy.accepts(data@, now) ==> {
                &&& t.step == StepView::Taking(data@)
                &&& t.action() is Check
                &&& u.action() == (ActionView::Apply { revision: s.revision, data: data@ })
                &&& v.step is Waiting && v.policy.desktop == Some(sync::sha256(data@))
                &&& w.step is Waiting && w.policy.desktop == s.policy.desktop
                &&& v.policy.echoes == t.policy.echoes && w.policy.echoes == t.policy.echoes
                &&& v.revision == s.revision && v.sequence == s.sequence && v.pending == s.pending
                &&& w.revision == s.revision && w.sequence == s.sequence && w.pending == s.pending
            }
        }),
        s.next(Event::Message(Some(Ok(Message::Text(None)))), now) == s,
{
}

/// A session ends exactly where something went wrong, and says what: the server on the
/// phone ended, the phone was silent too long, the clipboard or the channel is gone,
/// another mirror is in the way, or the clipboard failed. An event that is not waited
/// for changes nothing.
pub proof fn law_sessions_end_with_a_reason(
    s: SessionView,
    e: &'static str,
    current: u64,
    now: u128,
)
    ensures
        s.step is Waiting ==> {
            &&& s.next(Event::Exited, now) == (SessionView {
                step: StepView::Ended("Android server exited; reconnecting"@),
                ..s
            })
            &&& s.next(Event::Overdue, now) == (SessionView {
                step: StepView::Ended(
                    "Phone stopped acknowledging updates; unlock or reconnect it"@,
                ),
                ..s
            })
            &&& s.next(Event::Desktop(None), now) == (SessionView {
                step: StepView::Ended("Wayland clipboard closed; restart bridge"@),
                ..s
            })
            &&& s.next(Event::Message(None), now) == (SessionView {
                step: StepView::Ended("Android control channel closed"@),
                ..s
            })
            &&& s.next(Event::Message(Some(Err(e))), now) == (SessionView {
                step: StepView::Ended(e@),
                ..s
            })
        },
        s.step is Checking || s.step is Taking ==> s.next(
            Event::Checked { result: Err(e), current },
            now,
        ) == (SessionView { step: StepView::Ended(e@), ..s }),
        s.step is Applying ==> s.next(Event::Applied(Err(e)), now) == (SessionView {
            step: StepView::Ended(e@),
            ..s
        }),
        s.step matches StepView::Ended(f) ==> s.action() == ActionView::End(f),
        s.step is Waiting ==> s.action() is Wait,
{
}

/// A session acts only on what it waits for.
pub proof fn law_other_events_change_nothing(s: SessionView, event: Event, now: u128)
    requires
        match s.step {
            StepView::Waiting => event is Checked || event is Written || event is Applied,
            StepView::Checking(_) => !(event is Checked),
            StepView::Writing(_) => !(event is Written),
            StepView::Taking(_) => !(event is Checked),
            StepView::Applying(_) => !(event is Applied),
            StepView::Ended(_) => true,
        },
    ensures
        s.next(event, now) == s,
{
}

/// The deadline is that of the copy that was sent first of those that wait, and there
/// is none where none waits.
pub proof fn law_oldest_copy_sets_the_deadline(s: SessionView)
    ensures
        s.deadline() is None <==> s.pending.len() == 0,
        s.pending.len() > 0 ==> s.deadline() == Some(s.pending[0].1),
{
}

} // verus!
