//! Following the list of transports that the server keeps.
use crate::adb::Adb;
use crate::bytes;
use crate::devices::{copy_all, same_all, Device, DeviceView};
use crate::identities::{self, Identities, Key};
use crate::lists;
use crate::process::{Call, CallView};
use crate::text;
use vstd::prelude::*;
use vstd::utf8::encode_utf8;

verus! {

// ---------------------------------------------------------------------------
// Beginning to track
// ---------------------------------------------------------------------------
impl Adb {
    /// Starts the server where it does not run.
    pub fn start_server(&self) -> (r: Call)
        ensures
            r@ == self@.invocation(seq!["start-server"@], None, 10),
    {
        let args = ["start-server"];
        assert(args.deep_view() == seq!["start-server"@]);
        self.call(&args, None, 10)
    }
}

/// What asks the server to report every change of its list.
pub fn tracking_request() -> (r: Vec<u8>)
    ensures
        r@ == encode_utf8("0014host:track-devices-l"@),
{
    vstd::slice::slice_to_vec("0014host:track-devices-l".as_bytes())
}

/// How the attempt to begin went.
pub enum Setup {
    /// The server could not be started.
    NotStarted(&'static str),
    /// The connection took too long.
    ConnectTimedOut,
    /// The connection was refused.
    ConnectFailed,
    /// The request could not be written.
    RequestFailed,
    /// The answer took too long.
    StatusTimedOut,
    /// The answer could not be read.
    StatusFailed,
    /// The server answered.
    Status([u8; 4]),
}

/// Why tracking cannot begin, if so.
pub open spec fn setup_error(setup: Setup) -> Option<Seq<char>> {
    match setup {
        Setup::NotStarted(e) => Some(e@),
        Setup::ConnectTimedOut => Some("ADB tracking connect timed out"@),
        Setup::ConnectFailed => Some("Cannot connect to ADB server"@),
        Setup::RequestFailed => Some("ADB tracking failed"@),
        Setup::StatusTimedOut => Some("ADB tracking handshake timed out"@),
        Setup::StatusFailed => Some("ADB tracking failed"@),
        Setup::Status(status) => if status@ == encode_utf8("OKAY"@) {
            None
        } else {
            Some("ADB device tracking unsupported; update platform-tools"@)
        },
    }
}

/// Whether tracking can begin.
pub fn begin_tracking(setup: Setup) -> (r: Result<(), &'static str>)
    ensures
        match r {
            Ok(()) => setup_error(setup) is None,
            Err(e) => setup_error(setup) == Some(e@),
        },
{
    match setup {
        Setup::NotStarted(e) => Err(e),
        Setup::ConnectTimedOut => Err("ADB tracking connect timed out"),
        Setup::ConnectFailed => Err("Cannot connect to ADB server"),
        Setup::RequestFailed => Err("ADB tracking failed"),
        Setup::StatusTimedOut => Err("ADB tracking handshake timed out"),
        Setup::StatusFailed => Err("ADB tracking failed"),
        Setup::Status(status) => if bytes::same(&status, "OKAY".as_bytes()) {
            Ok(())
        } else {
            Err("ADB device tracking unsupported; update platform-tools")
        },
    }
}

// ---------------------------------------------------------------------------
// The tracker
// ---------------------------------------------------------------------------
/// How many phones are asked for their identity at a time.
pub const MAX_PROBES: usize = 4;

/// The longest pause between two attempts, in seconds.
pub const MAX_DELAY: u64 = 15;

/// Follows the list of transports and asks each ready phone for its identity.
pub struct Tracker {
    delay: u64,
    known: Identities,
    ds: Vec<Device>,
    in_flight: Vec<(String, String)>,
    generation: u64,
    running: usize,
    published: Vec<Device>,
    error: Option<&'static str>,
}

/// What a [`Tracker`] holds.
pub struct TrackerView {
    /// The pause after the next failure, in seconds.
    pub delay: u64,
    /// The identities that were told.
    pub known: Map<Key, Option<Seq<char>>>,
    /// The listed transports.
    pub ds: Seq<DeviceView>,
    /// The transports that were asked since the last list.
    pub in_flight: Seq<Key>,
    /// The number of the last list.
    pub generation: u64,
    /// How many questions have not come to an end, stale ones included.
    pub running: nat,
    /// The list that was published last.
    pub published: Seq<DeviceView>,
    /// The error that was published last.
    pub error: Option<Seq<char>>,
}

spec fn keys_in(v: Seq<(String, String)>) -> Seq<Key> {
    v.map_values(|k: (String, String)| (k.0@, k.1@))
}

impl View for Tracker {
    type V = TrackerView;

    closed spec fn view(&self) -> TrackerView {
        TrackerView {
            delay: self.delay,
            known: self.known@,
            ds: self.ds.deep_view(),
            in_flight: keys_in(self.in_flight@),
            generation: self.generation,
            running: self.running as nat,
            published: self.published.deep_view(),
            error: match self.error {
                Some(e) => Some(e@),
                None => None,
            },
        }
    }
}

/// What happened.
pub enum TrackEvent {
    /// The server accepted the request.
    Began,
    /// The server sent its list.
    Frame(Vec<Device>),
    /// A phone answered, or could not; it was asked in `generation`.
    Probed { generation: u64, device: Device, identity: Option<String> },
    /// A question was given up.
    Aborted,
    /// The server could not be followed (any more).
    Ended(&'static str),
}

/// What is to be done.
pub struct Turn {
    /// Publish this list.
    pub devices: Option<Vec<Device>>,
    /// Publish this error, or that there is none.
    pub error: Option<Option<&'static str>>,
    /// Give up the questions that are under way.
    pub abort: bool,
    /// Ask these phones for their identity, in this generation.
    pub probes: Vec<Device>,
    pub generation: u64,
    /// Begin again after this many seconds.
    pub pause: Option<u64>,
}

/// What a [`Turn`] holds.
pub struct TurnView {
    pub devices: Option<Seq<DeviceView>>,
    pub error: Option<Option<Seq<char>>>,
    pub abort: bool,
    pub probes: Seq<DeviceView>,
    pub generation: u64,
    pub pause: Option<u64>,
}

impl View for Turn {
    type V = TurnView;

    open spec fn view(&self) -> TurnView {
        TurnView {
            devices: self.devices.deep_view(),
            error: match self.error {
                Some(Some(e)) => Some(Some(e@)),
                Some(None) => Some(None),
                None => None,
            },
            abort: self.abort,
            probes: self.probes.deep_view(),
            generation: self.generation,
            pause: self.pause,
        }
    }
}

/// The number of the list after the one with the number `g`.
pub open spec fn next_generation(g: u64) -> u64 {
    if g == u64::MAX {
        0
    } else {
        (g + 1) as u64
    }
}

/// The class of ready transports with the key `key`.
pub open spec fn ready_with(key: Key) -> spec_fn(DeviceView) -> bool {
    |d: DeviceView| identities::is_ready(d, key)
}

/// The class of keys other than `key`.
pub open spec fn other_than(key: Key) -> spec_fn(Key) -> bool {
    |k: Key| k != key
}

/// Whether a phone is to be asked.
pub open spec fn is_due(
    d: DeviceView,
    known: Map<Key, Option<Seq<char>>>,
    asked: Seq<Key>,
) -> bool {
    d.state == "device"@ && !known.contains_key(d.key()) && !asked.contains(d.key())
}

/// The phones to ask next: the first ready ones that are neither known nor asked,
/// at most `room` of them, none twice.
pub open spec fn due(
    ds: Seq<DeviceView>,
    known: Map<Key, Option<Seq<char>>>,
    asked: Seq<Key>,
    room: int,
) -> Seq<DeviceView>
    decreases ds.len(),
{
    if ds.len() == 0 || room <= 0 {
        Seq::empty()
    } else {
        let d = ds[0];
        if is_due(d, known, asked) {
            seq![d] + due(ds.drop_first(), known, asked.push(d.key()), room - 1)
        } else {
            due(ds.drop_first(), known, asked, room)
        }
    }
}

/// The keys of transports.
pub open spec fn keys_of(ds: Seq<DeviceView>) -> Seq<Key> {
    ds.map_values(|d: DeviceView| d.key())
}

/// Twice as long a pause, up to the longest.
pub open spec fn longer(delay: u64) -> u64 {
    if 2 * delay > MAX_DELAY {
        MAX_DELAY
    } else {
        (2 * delay) as u64
    }
}

impl TrackerView {
    /// The pause is between one second and the longest, and no more phones are
    /// asked at a time than may be.
    pub open spec fn inv(self) -> bool {
        &&& 1 <= self.delay <= MAX_DELAY
        &&& self.running <= MAX_PROBES
    }

    /// Nothing is listed yet.
    pub open spec fn begun(self) -> TrackerView {
        TrackerView {
            known: Map::empty(),
            ds: Seq::empty(),
            in_flight: Seq::empty(),
            generation: 0,
            running: 0,
            ..self
        }
    }

    /// `list` is listed.
    pub open spec fn framed(self, list: Seq<DeviceView>) -> TrackerView {
        let known = identities::still_known(self.known, list);
        TrackerView {
            delay: 1,
            known,
            ds: identities::with_identities(known, list),
            in_flight: Seq::empty(),
            generation: next_generation(self.generation),
            error: None,
            ..self
        }
    }

    /// One question has come to an end.
    pub open spec fn joined(self) -> TrackerView {
        TrackerView {
            running: if self.running > 0 {
                (self.running - 1) as nat
            } else {
                0
            },
            ..self
        }
    }

    /// The phone `key` answered `identity` to a question of `generation`.
    pub open spec fn probed(
        self,
        generation: u64,
        key: Key,
        identity: Option<Seq<char>>,
    ) -> TrackerView {
        let t = self.joined();
        if generation != self.generation {
            t
        } else {
            let in_flight = self.in_flight.filter(other_than(key));
            match lists::first_where(self.ds, ready_with(key)) {
                Some(i) => TrackerView {
                    in_flight,
                    known: self.known.insert(key, identity),
                    ds: self.ds.update(i, self.ds[i].with_identity(identity)),
                    ..t
                },
                None => TrackerView { in_flight, ..t },
            }
        }
    }

    /// The server cannot be followed.
    pub open spec fn ended(self, e: Seq<char>) -> TrackerView {
        TrackerView {
            published: Seq::empty(),
            error: Some(e),
            delay: longer(self.delay),
            ..self
        }
    }

    /// The phones to ask next.
    pub open spec fn probes(self) -> Seq<DeviceView> {
        due(self.ds, self.known, self.in_flight, MAX_PROBES - self.running)
    }

    /// The next phones have been asked and the list has been published.
    pub open spec fn turned(self) -> TrackerView {
        TrackerView {
            in_flight: self.in_flight + keys_of(self.probes()),
            running: self.running + self.probes().len(),
            published: self.ds,
            ..self
        }
    }

    /// What is to be done before the next event.
    pub open spec fn turn(self, abort: bool, error: Option<Option<Seq<char>>>) -> TurnView {
        TurnView {
            devices: if self.published == self.ds {
                None
            } else {
                Some(self.ds)
            },
            error,
            abort,
            probes: self.probes(),
            generation: self.generation,
            pause: None,
        }
    }

    /// The state after an event, before the next questions.
    pub open spec fn after(self, event: TrackEvent) -> TrackerView {
        match event {
            TrackEvent::Began => self.begun(),
            TrackEvent::Frame(list) => self.framed(list.deep_view()),
            TrackEvent::Probed { generation, device, identity } => self.probed(
                generation,
                device@.key(),
                identity.deep_view(),
            ),
            TrackEvent::Aborted => self.joined(),
            TrackEvent::Ended(e) => self.ended(e@),
        }
    }

    /// The state after an event, and what is to be done.
    pub open spec fn step(self, event: TrackEvent) -> (TrackerView, TurnView) {
        let t = self.after(event);
        match event {
            TrackEvent::Ended(e) => (
                t,
                TurnView {
                    devices: Some(Seq::empty()),
                    error: Some(Some(e@)),
                    abort: true,
                    probes: Seq::empty(),
                    generation: self.generation,
                    pause: Some(self.delay),
                },
            ),
            TrackEvent::Frame(_) => (
                t.turned(),
                t.turn(
                    true,
                    if self.error is Some {
                        Some(None)
                    } else {
                        None
                    },
                ),
            ),
            _ => (t.turned(), t.turn(false, None)),
        }
    }
}

fn asked(v: &Vec<(String, String)>, d: &Device) -> (r: bool)
    ensures
        r == keys_in(v@).contains(d@.key()),
{
    let ghost keys = keys_in(v@);
    let mut i: usize = 0;
    while i < v.len()
        invariant
            i <= v@.len(),
            keys == keys_in(v@),
            forall|j: int| 0 <= j < i ==> #[trigger] keys[j] != d@.key(),
        decreases v@.len() - i,
    {
        if text::same(&v[i].0, &d.serial) && text::same(&v[i].1, &d.id) {
            assert(keys[i as int] == d@.key());
            return true;
        }
        assert(keys[i as int] != d@.key());
        i += 1;
    }
    false
}

fn find_ready(ds: &Vec<Device>, key: &Device) -> (r: Option<usize>)
    ensures
        match r {
            Some(i) => i < ds@.len() && lists::first_where(ds.deep_view(), ready_with(key@.key()))
                == Some(i as int),
            None => lists::first_where(ds.deep_view(), ready_with(key@.key())) is None,
        },
{
    let ghost all = ds.deep_view();
    let ghost f = ready_with(key@.key());
    let mut i: usize = 0;
    while i < ds.len()
        invariant
            i <= ds@.len(),
            all == ds.deep_view(),
            f == ready_with(key@.key()),
            forall|j: int| 0 <= j < i ==> !f(#[trigger] all[j]),
        decreases ds@.len() - i,
    {
        assert(all[i as int] == ds@[i as int]@);
        if text::same(&ds[i].serial, &key.serial) && text::same(&ds[i].id, &key.id) && text::same(
            &ds[i].state,
            "device",
        ) {
            proof {
                lists::lemma_is_first(all, f, i as int);
            }
            return Some(i);
        }
        i += 1;
    }
    proof {
        lists::lemma_none_is_first(all, f);
    }
    None
}

impl Tracker {
    /// A tracker that has not begun.
    pub fn new() -> (r: Tracker)
        ensures
            r@.inv(),
            r@ == (TrackerView {
                delay: 1,
                known: Map::empty(),
                ds: Seq::empty(),
                in_flight: Seq::empty(),
                generation: 0,
                running: 0,
                published: Seq::empty(),
                error: None,
            }),
    {
        let r = Tracker {
            delay: 1,
            known: Identities::default(),
            ds: Vec::new(),
            in_flight: Vec::new(),
            generation: 0,
            running: 0,
            published: Vec::new(),
            error: None,
        };
        assert(r@.ds =~= Seq::empty());
        assert(r@.in_flight =~= Seq::empty());
        assert(r@.published =~= Seq::empty());
        r
    }

    fn forget(&mut self, d: &Device)
        ensures
            final(self)@ == (TrackerView {
                in_flight: old(self)@.in_flight.filter(other_than(d@.key())),
                ..old(self)@
            }),
    {
        let ghost keys = keys_in(self.in_flight@);
        let ghost f = other_than(d@.key());
        let mut kept: Vec<(String, String)> = Vec::new();
        let mut i: usize = 0;
        assert(keys.take(0).filter(f) == Seq::<Key>::empty()) by {
            reveal(Seq::filter);
        }
        assert(keys_in(kept@) =~= Seq::<Key>::empty());
        while i < self.in_flight.len()
            invariant
                i <= self.in_flight@.len(),
                keys == keys_in(self.in_flight@),
                f == other_than(d@.key()),
                *self == *old(self),
                keys_in(kept@) == keys.take(i as int).filter(f),
            decreases self.in_flight@.len() - i,
        {
            let ghost before = kept@;
            let ghost k = keys[i as int];
            proof {
                assert(keys.take(i + 1) == keys.take(i as int).push(k));
                lists::lemma_filter_push(keys.take(i as int), k, f);
            }
            if !(text::same(&self.in_flight[i].0, &d.serial) && text::same(
                &self.in_flight[i].1,
                &d.id,
            )) {
                kept.push((self.in_flight[i].0.clone(), self.in_flight[i].1.clone()));
                assert(keys_in(kept@) =~= keys_in(before).push(k));
            }
            i += 1;
        }
        assert(keys.take(i as int) == keys);
        self.in_flight = kept;
    }

    /// Asks the next phones.
    fn ask(&mut self) -> (r: Vec<Device>)
        requires
            old(self)@.inv(),
        ensures
            r.deep_view() == old(self)@.probes(),
            final(self)@ == (TrackerView {
                in_flight: old(self)@.in_flight + keys_of(old(self)@.probes()),
                running: old(self)@.running + old(self)@.probes().len(),
                ..old(self)@
            }),
            final(self)@.inv(),
    {
        let ghost start = self@;
        let ghost all = start.probes();
        let mut out: Vec<Device> = Vec::new();
        let mut i: usize = 0;
        assert(start.ds.skip(0) == start.ds);
        assert(out.deep_view() =~= Seq::<DeviceView>::empty());
        assert(out.deep_view() + all == all);
        assert(start.in_flight + keys_of(out.deep_view()) =~= start.in_flight);
        while i < self.ds.len() && self.running < MAX_PROBES
            invariant
                i <= self.ds@.len(),
                self.ds.deep_view() == start.ds,
                self@ == (TrackerView {
                    in_flight: start.in_flight + keys_of(out.deep_view()),
                    running: start.running + out.deep_view().len(),
                    ..start
                }),
                self@.inv(),
                all == out.deep_view() + due(
                    start.ds.skip(i as int),
                    start.known,
                    self@.in_flight,
                    MAX_PROBES - self@.running,
                ),
            decreases self.ds@.len() - i,
        {
            let ghost rest = start.ds.skip(i as int);
            let ghost sofar = out.deep_view();
            let ghost keys = self@.in_flight;
            assert(rest[0] == self.ds.deep_view()[i as int]);
            assert(rest.drop_first() == start.ds.skip(i + 1));
            let ready = text::same(&self.ds[i].state, "device");
            if ready && !self.known.known(&self.ds[i]) && !asked(&self.in_flight, &self.ds[i]) {
                let d = self.ds[i].clone();
                let ghost v = d@;
                let ghost held = self.in_flight@;
                self.in_flight.push((d.serial.clone(), d.id.clone()));
                assert(keys_in(self.in_flight@) =~= keys_in(held).push(v.key()));
                self.running += 1;
                out.push(d);
                assert(out.deep_view() == sofar.push(v));
                assert(start.in_flight + keys_of(out.deep_view()) =~= keys.push(v.key()));
                assert(sofar + (seq![v] + due(
                    rest.drop_first(),
                    start.known,
                    keys.push(v.key()),
                    MAX_PROBES - (start.running + sofar.len()) - 1,
                )) =~= sofar.push(v) + due(
                    rest.drop_first(),
                    start.known,
                    keys.push(v.key()),
                    MAX_PROBES - (start.running + sofar.len()) - 1,
                ));
            }
            i += 1;
        }
        assert(due(
            start.ds.skip(i as int),
            start.known,
            self@.in_flight,
            MAX_PROBES - self@.running,
        ) =~= Seq::<DeviceView>::empty());
        assert(out.deep_view() =~= all);
        out
    }

    fn turn(&mut self, abort: bool, error: Option<Option<&'static str>>) -> (r: Turn)
        requires
            old(self)@.inv(),
        ensures
            final(self)@.inv(),
            final(self)@ == old(self)@.turned(),
            r@ == old(self)@.turn(
                abort,
                match error {
                    Some(Some(e)) => Some(Some(e@)),
                    Some(None) => Some(None),
                    None => None,
                },
            ),
    {
        let probes = self.ask();
        let devices = if same_all(&self.published, &self.ds) {
            None
        } else {
            self.published = copy_all(&self.ds);
            Some(copy_all(&self.ds))
        };
        Turn { devices, error, abort, probes, generation: self.generation, pause: None }
    }

    /// Takes an event and says what is to be done before the next one.
    pub fn track(&mut self, event: TrackEvent) -> (r: Turn)
        requires
            old(self)@.inv(),
        ensures
            final(self)@.inv(),
            (final(self)@, r@) == old(self)@.step(event),
    {
        match event {
            TrackEvent::Began => {
                self.known = Identities::default();
                self.ds = Vec::new();
                self.in_flight = Vec::new();
                self.generation = 0;
                self.running = 0;
                assert(self@.ds =~= Seq::empty());
                assert(self@.in_flight =~= Seq::empty());
                self.turn(false, None)
            },
            TrackEvent::Frame(list) => {
                self.ds = list;
                self.generation = if self.generation == u64::MAX {
                    0
                } else {
                    self.generation + 1
                };
                self.in_flight = Vec::new();
                assert(self@.in_flight =~= Seq::empty());
                self.known.reconcile(&mut self.ds);
                let error = if self.error.is_some() {
                    Some(None)
                } else {
                    None
                };
                self.error = None;
                self.delay = 1;
                self.turn(true, error)
            },
            TrackEvent::Probed { generation, device, identity } => {
                if self.running > 0 {
                    self.running -= 1;
                }
                if generation == self.generation {
                    self.forget(&device);
                    match find_ready(&self.ds, &device) {
                        Some(i) => {
                            proof {
                                lists::lemma_first_where(self@.ds, ready_with(device@.key()));
                            }
                            let ghost before = self@.ds;
                            self.known.put(&mut self.ds[i], identity);
                            assert(self@.ds =~= before.update(
                                i as int,
                                before[i as int].with_identity(identity.deep_view()),
                            ));
                        },
                        None => {},
                    }
                }
                self.turn(false, None)
            },
            TrackEvent::Aborted => {
                if self.running > 0 {
                    self.running -= 1;
                }
                self.turn(false, None)
            },
            TrackEvent::Ended(e) => {
                let pause = self.delay;
                self.published = Vec::new();
                assert(self@.published =~= Seq::empty());
                self.error = Some(e);
                self.delay = if 2 * self.delay > MAX_DELAY {
                    MAX_DELAY
                } else {
                    2 * self.delay
                };
                let r = Turn {
                    devices: Some(Vec::new()),
                    error: Some(Some(e)),
                    abort: true,
                    probes: Vec::new(),
                    generation: self.generation,
                    pause: Some(pause),
                };
                assert(r@.devices->0 =~= Seq::empty());
                assert(r@.probes =~= Seq::empty());
                r
            },
        }
    }
}

// ---------------------------------------------------------------------------
// Laws
// ---------------------------------------------------------------------------
/// Only ready phones that are listed and neither known nor asked are asked, each
/// once, and no more than there is room for. Where there is room left, none of
/// them is passed over.
pub proof fn law_asked_phones(
    ds: Seq<DeviceView>,
    known: Map<Key, Option<Seq<char>>>,
    asked: Seq<Key>,
    room: int,
)
    requires
        room >= 0,
    ensures
        due(ds, known, asked, room).len() <= room,
        forall|i: int|
            0 <= i < due(ds, known, asked, room).len() ==> ds.contains(
                #[trigger] due(ds, known, asked, room)[i],
            ) && is_due(due(ds, known, asked, room)[i], known, asked),
        forall|i: int, j: int|
            0 <= i < j < due(ds, known, asked, room).len() ==> (#[trigger] due(
                ds,
                known,
                asked,
                room,
            )[i]).key() != (#[trigger] due(ds, known, asked, room)[j]).key(),
        due(ds, known, asked, room).len() < room ==> forall|k: int|
            0 <= k < ds.len() && is_due(#[trigger] ds[k], known, asked) ==> keys_of(
                due(ds, known, asked, room),
            ).contains(ds[k].key()),
    decreases ds.len(),
{
    if ds.len() > 0 && room > 0 {
        let d = ds[0];
        let rest = ds.drop_first();
        let all = due(ds, known, asked, room);
        if is_due(d, known, asked) {
            let more = asked.push(d.key());
            law_asked_phones(rest, known, more, room - 1);
            let tail = due(rest, known, more, room - 1);
            assert(all == seq![d] + tail);
            assert(ds.contains(d));
            assert(more[more.len() - 1] == d.key());
            assert forall|i: int| 0 <= i < all.len() implies ds.contains(#[trigger] all[i])
                && is_due(all[i], known, asked) by {
                if i > 0 {
                    assert(all[i] == tail[i - 1]);
                    assert(rest.contains(tail[i - 1]));
                    let m = choose|m: int| 0 <= m < rest.len() && rest[m] == tail[i - 1];
                    assert(ds[m + 1] == all[i]);
                    lists::lemma_push_contains(asked, d.key(), all[i].key());
                }
            }
            assert forall|i: int, j: int| 0 <= i < j < all.len() implies (
            #[trigger] all[i]).key() != (#[trigger] all[j]).key() by {
                assert(all[j] == tail[j - 1]);
                if i == 0 {
                    assert(is_due(tail[j - 1], known, more));
                } else {
                    assert(all[i] == tail[i - 1]);
                }
            }
            if all.len() < room {
                assert forall|k: int|
                    0 <= k < ds.len() && is_due(#[trigger] ds[k], known, asked) implies keys_of(
                    all,
                ).contains(ds[k].key()) by {
                    assert(keys_of(all)[0] == d.key());
                    if k > 0 && ds[k].key() != d.key() {
                        assert(rest[k - 1] == ds[k]);
                        lists::lemma_push_contains(asked, d.key(), ds[k].key());
                        assert(is_due(rest[k - 1], known, more));
                        let m = choose|m: int|
                            0 <= m < keys_of(tail).len() && keys_of(tail)[m] == ds[k].key();
                        assert(keys_of(all)[m + 1] == ds[k].key());
                    }
                }
            }
        } else {
            law_asked_phones(rest, known, asked, room);
            assert forall|i: int| 0 <= i < all.len() implies ds.contains(#[trigger] all[i]) by {
                assert(rest.contains(all[i]));
                let m = choose|m: int| 0 <= m < rest.len() && rest[m] == all[i];
                assert(ds[m + 1] == all[i]);
            }
            if all.len() < room {
                assert forall|k: int|
                    0 <= k < ds.len() && is_due(#[trigger] ds[k], known, asked) implies keys_of(
                    all,
                ).contains(ds[k].key()) by {
                    assert(rest[k - 1] == ds[k]);
                }
            }
        }
    }
}

/// An answer to a question from before the last list changes neither the list nor
/// what is known.
pub proof fn law_late_answers_change_nothing(
    t: TrackerView,
    generation: u64,
    key: Key,
    identity: Option<Seq<char>>,
)
    requires
        generation != t.generation,
    ensures
        t.probed(generation, key, identity).ds == t.ds,
        t.probed(generation, key, identity).known == t.known,
        t.probed(generation, key, identity).in_flight == t.in_flight,
{
}

/// A question that was asked before a list is a late one after it.
pub proof fn law_each_list_makes_questions_late(t: TrackerView, list: Seq<DeviceView>)
    ensures
        t.framed(list).generation != t.generation,
{
}

impl TrackerView {
    /// Identities are known of phones that are listed as ready, and of no others.
    pub open spec fn is_current(self) -> bool {
        forall|k: Key|
            #[trigger] self.known.contains_key(k) ==> identities::is_live(self.ds, k)
    }
}

/// Whatever happens, identities are known only of phones that are listed as ready.
pub proof fn law_known_phones_are_listed(t: TrackerView, event: TrackEvent)
    requires
        t.is_current(),
    ensures
        t.step(event).0.is_current(),
{
    let after = t.after(event);
    match event {
        TrackEvent::Frame(list) => {
            let ds = list.deep_view();
            assert forall|k: Key| #[trigger]
                after.known.contains_key(k) implies identities::is_live(after.ds, k) by {
                let i = choose|i: int| 0 <= i < ds.len() && identities::is_ready(ds[i], k);
                assert(identities::is_ready(after.ds[i], k));
            }
        },
        TrackEvent::Probed { generation, device, identity } => {
            let f = ready_with(device@.key());
            lists::lemma_first_where(t.ds, f);
            assert forall|k: Key| #[trigger]
                after.known.contains_key(k) implies identities::is_live(after.ds, k) by {
                match lists::first_where(t.ds, f) {
                    Some(i) => {
                        if generation == t.generation && k == device@.key() {
                            assert(f(t.ds[i]));
                            assert(identities::is_ready(after.ds[i], k));
                        } else {
                            assert(t.known.contains_key(k));
                            let m = choose|m: int|
                                0 <= m < t.ds.len() && identities::is_ready(t.ds[m], k);
                            assert(identities::is_ready(after.ds[m], k));
                        }
                    },
                    None => {},
                }
            }
        },
        _ => {},
    }
    assert(t.step(event).0.known == after.known);
    assert(t.step(event).0.ds == after.ds);
}

/// Tracking begins exactly where the server answered that it will, and otherwise it is
/// said what went wrong.
pub proof fn law_tracking_begins_when_granted(status: [u8; 4], e: &'static str)
    ensures
        setup_error(Setup::Status(status)) is None <==> status@ == encode_utf8("OKAY"@),
        status@ != encode_utf8("OKAY"@) ==> setup_error(Setup::Status(status)) == Some(
            "ADB device tracking unsupported; update platform-tools"@,
        ),
        setup_error(Setup::NotStarted(e)) == Some(e@),
        setup_error(Setup::ConnectTimedOut) == Some("ADB tracking connect timed out"@),
        setup_error(Setup::ConnectFailed) == Some("Cannot connect to ADB server"@),
        setup_error(Setup::RequestFailed) == Some("ADB tracking failed"@),
        setup_error(Setup::StatusTimedOut) == Some("ADB tracking handshake timed out"@),
        setup_error(Setup::StatusFailed) == Some("ADB tracking failed"@),
{
}

/// Whatever happens while the server is followed, what is listed afterwards is what is
/// published, and it is published only where it changed. The questions that go out are
/// those of the present list, are remembered as asked, and never more than four are
/// under way.
pub proof fn law_lists_are_published(t: TrackerView, event: TrackEvent)
    requires
        t.inv(),
        !(event is Ended),
    ensures
        ({
            let (u, turn) = t.step(event);
            &&& u.published == u.ds
            &&& turn.devices == if t.published == u.ds {
                None
            } else {
                Some(u.ds)
            }
            &&& turn.pause is None
            &&& turn.generation == u.generation
            &&& turn.abort <==> event is Frame
            &&& turn.error == if event is Frame && t.error is Some {
                Some(None::<Seq<char>>)
            } else {
                None
            }
            &&& u.running <= 4
            &&& u.running == t.after(event).running + turn.probes.len()
            &&& u.in_flight == t.after(event).in_flight + turn.probes.map_values(
                |d: DeviceView| (d.serial, d.id),
            )
            &&& u.known == t.after(event).known && u.ds == t.after(event).ds
            &&& u.delay == t.after(event).delay && u.error == t.after(event).error
            &&& turn.probes == due(u.ds, u.known, t.after(event).in_flight, 4
                - t.after(event).running)
        }),
{
    let a = t.after(event);
    law_asked_phones(a.ds, a.known, a.in_flight, 4 - a.running);
    let (u, turn) = t.step(event);
    assert(keys_of(turn.probes) =~= turn.probes.map_values(|d: DeviceView| (d.serial, d.id)));
}

/// The phones to ask are taken from the front of the list: the first one is asked
/// where it is ready and neither known nor asked, and takes one place.
pub proof fn law_phones_are_asked_in_order(
    d: DeviceView,
    rest: Seq<DeviceView>,
    known: Map<Key, Option<Seq<char>>>,
    asked: Seq<Key>,
    room: int,
)
    ensures
        ({
            let key = (d.serial, d.id);
            let all = seq![d] + rest;
            &&& room > 0 && d.state == "device"@ && !known.contains_key(key) && !asked.contains(key)
                ==> due(all, known, asked, room) == seq![d] + due(
                rest,
                known,
                asked.push(key),
                room - 1,
            )
            &&& room > 0 && !(d.state == "device"@ && !known.contains_key(key) && !asked.contains(
                key,
            )) ==> due(all, known, asked, room) == due(rest, known, asked, room)
            &&& room <= 0 ==> due(all, known, asked, room).len() == 0
            &&& due(Seq::empty(), known, asked, room).len() == 0
        }),
{
    assert((seq![d] + rest).drop_first() =~= rest);
}

/// A list takes the place of the last one: its transports are listed with what is
/// still known of them, the questions that are under way are late, the error is over
/// and the next pause is one second.
pub proof fn law_new_lists_begin_anew(t: TrackerView, list: Vec<Device>)
    ensures
        ({
            let l = list.deep_view();
            let a = t.after(TrackEvent::Frame(list));
            &&& a.known == identities::still_known(t.known, l)
            &&& a.ds == identities::with_identities(a.known, l)
            &&& a.in_flight.len() == 0
            &&& a.generation != t.generation
            &&& t.generation < u64::MAX ==> a.generation == t.generation + 1
            &&& a.error is None
            &&& a.delay == 1
            &&& a.running == t.running
        }),
{
}

/// An answer to a question of the present list is noted: the first ready transport of
/// that name is listed with it, it is known, and it is not awaited any more. A
/// transport that is gone is not noted. One question less is under way in any case.
pub proof fn law_answers_are_noted(
    t: TrackerView,
    generation: u64,
    device: Device,
    identity: Option<String>,
)
    ensures
        ({
            let key = (device@.serial, device@.id);
            let a = t.after(TrackEvent::Probed { generation, device, identity });
            let ready = |d: DeviceView| d.serial == key.0 && d.id == key.1 && d.state == "device"@;
            &&& a.running == if t.running == 0 {
                0
            } else {
                (t.running - 1) as nat
            }
            &&& a.generation == t.generation && a.delay == t.delay && a.error == t.error
            &&& a.ds.len() == t.ds.len()
            &&& generation != t.generation ==> a.ds == t.ds && a.known == t.known && a.in_flight
                == t.in_flight
            &&& generation == t.generation ==> {
                &&& !a.in_flight.contains(key)
                &&& forall|k: Key| k != key ==> (#[trigger] a.in_flight.contains(k) <==> t.in_flight.contains(
                    k,
                ))
                &&& match lists::first_where(t.ds, ready) {
                    Some(i) => {
                        &&& a.known == t.known.insert(key, identity.deep_view())
                        &&& a.ds[i] == (DeviceView { identity: identity.deep_view(), ..t.ds[i] })
                        &&& forall|j: int|
                            0 <= j < t.ds.len() && j != i ==> #[trigger] a.ds[j] == t.ds[j]
                    },
                    None => a.known == t.known && a.ds == t.ds,
                }
            }
        }),
{
    let key = (device@.serial, device@.id);
    let ready = |d: DeviceView| d.serial == key.0 && d.id == key.1 && d.state == "device"@;
    assert(ready_with(key) =~= ready);
    lists::lemma_first_where(t.ds, ready);
    let left = t.in_flight.filter(other_than(key));
    lists::lemma_filter_contains(t.in_flight, key, other_than(key));
    assert forall|k: Key| k != key implies (#[trigger] left.contains(k) <==> t.in_flight.contains(
        k,
    )) by {
        lists::lemma_filter_contains(t.in_flight, k, other_than(key));
    }
}

/// Where the server cannot be followed any more, no transports are shown, the reason
/// is, the questions are given up, and it is tried again after a pause that doubles
/// each time up to fifteen seconds. Then nothing is known of the phones any more.
pub proof fn law_tracking_begins_again(t: TrackerView, e: &'static str)
    requires
        t.inv(),
    ensures
        ({
            let (u, turn) = t.step(TrackEvent::Ended(e));
            &&& turn.devices == Some(Seq::<DeviceView>::empty())
            &&& u.published.len() == 0
            &&& turn.error == Some(Some(e@))
            &&& u.error == Some(e@)
            &&& turn.abort
            &&& turn.probes.len() == 0
            &&& turn.pause == Some(t.delay)
            &&& u.delay == if 2 * t.delay < 15 {
                2 * t.delay
            } else {
                15
            }
            &&& u.delay >= t.delay || t.delay == 15
        }),
        ({
            let a = t.after(TrackEvent::Began);
            &&& a.known.len() == 0 && a.known == Map::<Key, Option<Seq<char>>>::empty()
            &&& a.ds.len() == 0 && a.in_flight.len() == 0 && a.running == 0 && a.generation == 0
            &&& a.delay == t.delay && a.error == t.error && a.published == t.published
        }),
        ({
            let a = t.after(TrackEvent::Aborted);
            a == (TrackerView {
                running: if t.running == 0 {
                    0
                } else {
                    (t.running - 1) as nat
                },
                ..t
            })
        }),
{
}

} // verus!
