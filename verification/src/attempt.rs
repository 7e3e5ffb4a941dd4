//! An attempt to pair a phone by a QR code.
use crate::adb::{self, Adb, AdbView};
use crate::clock::{nanos_since, MAX_SPAN};
use crate::devices::{Device, DeviceView};
use crate::lists;
use crate::pairing::{
    self, connected, matches_guid, qr_call, qr_image, Service, ServiceView, Status, StatusView,
};
use crate::process::{Call, CallView, Outcome};
use crate::text;
use tokio::time::Instant;
use vstd::prelude::*;

verus! {

/// How long the server is left to connect to the paired phone by itself, in
/// nanoseconds.
pub const AUTO_SPAN: u128 = 3000000000;

/// How long the paired phone is waited for, in nanoseconds.
pub const WAIT_SPAN: u128 = 10000000000;

/// How far an attempt is.
#[derive(Clone, Copy)]
pub enum Stage {
    /// The image of the QR code is made.
    Imaging,
    /// A phone is waited for that has scanned it.
    Scanning,
    /// The phone is paired.
    Pairing,
    /// The phone is waited for to be connected.
    Connecting,
    /// The phone is being connected.
    Dialing,
    /// The attempt is over.
    Ended(Result<&'static str, &'static str>),
}

/// What a [`Stage`] is.
pub enum StageView {
    Imaging,
    Scanning,
    Pairing,
    Connecting,
    Dialing,
    Ended(Result<Seq<char>, Seq<char>>),
}

/// The text of a result.
pub open spec fn result_view(r: Result<&'static str, &'static str>) -> Result<
    Seq<char>,
    Seq<char>,
> {
    match r {
        Ok(m) => Ok(m@),
        Err(e) => Err(e@),
    }
}

impl View for Stage {
    type V = StageView;

    open spec fn view(&self) -> StageView {
        match self {
            Stage::Imaging => StageView::Imaging,
            Stage::Scanning => StageView::Scanning,
            Stage::Pairing => StageView::Pairing,
            Stage::Connecting => StageView::Connecting,
            Stage::Dialing => StageView::Dialing,
            Stage::Ended(r) => StageView::Ended(result_view(*r)),
        }
    }
}

/// What happened.
pub enum QrEvent {
    /// The helper that makes the image ended.
    Image(Outcome),
    /// These phones offer to be paired.
    Services(Vec<Service>),
    /// The phones that offer to be paired cannot be told any more.
    ServicesGone,
    /// The helper that pairs ended.
    Paired(Result<Vec<u8>, &'static str>),
    /// These transports are listed and these phones offer to be connected.
    Changed { devices: Vec<Device>, services: Vec<Service> },
    /// The same, at the time for which the attempt waited.
    Tick { devices: Vec<Device>, services: Vec<Service> },
    /// The transports cannot be told any more.
    DevicesGone,
    /// The phones that offer to be connected cannot be told any more.
    ConnectionsGone,
    /// The helper that connects ended.
    Dialed(Result<Vec<u8>, &'static str>),
    /// The attempt was given up.
    Cancelled,
    /// The attempt took too long.
    Expired,
    /// The discovery of phones to pair ended, with this error if any.
    PairingStopped(Option<&'static str>),
    /// The discovery of phones to connect ended, with this error if any.
    ConnectionStopped(Option<&'static str>),
}

/// What is to be done.
pub enum QrAction {
    /// Nothing new.
    Nothing,
    /// Run the helper that makes the image.
    Image(Call),
    /// Tell which phones offer to be paired.
    See,
    /// Tell when other phones offer to be paired.
    Scan,
    /// Run the helper that pairs.
    Pair(Call),
    /// Tell the transports and the phones that offer to be connected.
    Look,
    /// Tell when they change, and at this time at the latest.
    Watch(u128),
    /// Run the helper that connects.
    Dial(Call),
    /// End the attempt.
    End(Result<(), &'static str>),
}

/// What a [`QrAction`] holds.
pub enum QrActionView {
    Nothing,
    Image(CallView),
    See,
    Scan,
    Pair(CallView),
    Look,
    Watch(u128),
    Dial(CallView),
    End(Result<(), Seq<char>>),
}

impl View for QrAction {
    type V = QrActionView;

    open spec fn view(&self) -> QrActionView {
        match self {
            QrAction::Nothing => QrActionView::Nothing,
            QrAction::Image(c) => QrActionView::Image(c@),
            QrAction::See => QrActionView::See,
            QrAction::Scan => QrActionView::Scan,
            QrAction::Pair(c) => QrActionView::Pair(c@),
            QrAction::Look => QrActionView::Look,
            QrAction::Watch(t) => QrActionView::Watch(*t),
            QrAction::Dial(c) => QrActionView::Dial(c@),
            QrAction::End(Ok(())) => QrActionView::End(Ok(())),
            QrAction::End(Err(e)) => QrActionView::End(Err(e@)),
        }
    }
}

/// What an event leads to.
pub struct QrTurn {
    /// Show this.
    pub status: Option<Status>,
    /// Do this.
    pub action: QrAction,
}

/// What a [`QrTurn`] holds.
pub struct QrTurnView {
    pub status: Option<StatusView>,
    pub action: QrActionView,
}

impl View for QrTurn {
    type V = QrTurnView;

    open spec fn view(&self) -> QrTurnView {
        QrTurnView {
            status: match self.status {
                Some(s) => Some(s@),
                None => None,
            },
            action: self.action@,
        }
    }
}

/// An attempt to pair a phone by a QR code.
pub struct Attempt {
    adb: Adb,
    name: String,
    secret: String,
    guid: String,
    auto: u128,
    deadline: u128,
    fallback: bool,
    stage: Stage,
    start: Instant,
}

/// What an [`Attempt`] holds.
pub struct AttemptView {
    pub adb: AdbView,
    /// The random name under which the phone offers to be paired.
    pub name: Seq<char>,
    /// The random secret, until the phone is paired.
    pub secret: Seq<char>,
    /// The identifier of the paired phone.
    pub guid: Seq<char>,
    /// Until when the server is left to connect by itself.
    pub auto: u128,
    /// Until when the phone is waited for.
    pub deadline: u128,
    /// The phone was connected explicitly, or need not be.
    pub fallback: bool,
    pub stage: StageView,
}

impl View for Attempt {
    type V = AttemptView;

    closed spec fn view(&self) -> AttemptView {
        AttemptView {
            adb: self.adb@,
            name: self.name@,
            secret: self.secret@,
            guid: self.guid@,
            auto: self.auto,
            deadline: self.deadline,
            fallback: self.fallback,
            stage: self.stage@,
        }
    }
}

/// What is in the QR code.
pub open spec fn payload_of(name: Seq<char>, secret: Seq<char>) -> Seq<char> {
    "WIFI:T:ADB;S:"@ + name + ";P:"@ + secret + ";;"@
}

/// The class of services with a name.
pub open spec fn named(name: Seq<char>) -> spec_fn(ServiceView) -> bool {
    |s: ServiceView| s.name == name
}

/// Whether `address` is that of an IPv6 endpoint, which has its host in brackets.
pub open spec fn is_bracketed(address: Seq<char>) -> bool {
    address.len() > 0 && address[0] == '['
}

/// The class of services with a name whose endpoint is no IPv6 one.
pub open spec fn plainly_named(name: Seq<char>) -> spec_fn(ServiceView) -> bool {
    |s: ServiceView| s.name == name && !is_bracketed(s.address)
}

/// Which of the services with a name is paired with. A phone may offer itself at
/// several endpoints: one that is no IPv6 endpoint is preferred.
pub open spec fn offer_of(services: Seq<ServiceView>, name: Seq<char>) -> Option<int> {
    match lists::first_where(services, plainly_named(name)) {
        Some(i) => Some(i),
        None => lists::first_where(services, named(name)),
    }
}

/// The class of services of the phone with the identifier `guid`.
pub open spec fn of_guid(guid: Seq<char>) -> spec_fn(ServiceView) -> bool {
    |s: ServiceView| pairing::is_guid_match(s.name, guid)
}

/// Whether several phones offer to be paired under one name.
pub open spec fn are_several(services: Seq<ServiceView>, name: Seq<char>) -> bool {
    exists|i: int, j: int|
        0 <= i < services.len() && 0 <= j < services.len() && (#[trigger] services[i]).name == name
            && (#[trigger] services[j]).name == name && services[i].target != services[j].target
}

/// What is shown while an attempt goes on.
pub open spec fn showing(message: Seq<char>) -> StatusView {
    StatusView { image: Seq::empty(), message, active: true }
}

/// What is shown when an attempt is over.
pub open spec fn closing(result: Result<Seq<char>, Seq<char>>) -> StatusView {
    StatusView {
        image: Seq::empty(),
        message: match result {
            Ok(m) => m,
            Err(e) => e,
        },
        active: false,
    }
}

impl AttemptView {
    /// The attempt is over.
    pub open spec fn over(self, result: Result<Seq<char>, Seq<char>>) -> (
        AttemptView,
        QrTurnView,
    ) {
        (
            AttemptView { stage: StageView::Ended(result), ..self },
            QrTurnView {
                status: Some(closing(result)),
                action: QrActionView::End(
                    match result {
                        Ok(_) => Ok(()),
                        Err(e) => Err(e),
                    },
                ),
            },
        )
    }

    /// The attempt goes on.
    pub open spec fn on(self, action: QrActionView) -> (AttemptView, QrTurnView) {
        (self, QrTurnView { status: None, action })
    }

    /// The image was made.
    pub open spec fn imaged(self, outcome: Outcome) -> (AttemptView, QrTurnView) {
        match pairing::image_in(outcome) {
            Err(e) => self.over(Err(e)),
            Ok(image) => (
                AttemptView { stage: StageView::Scanning, ..self },
                QrTurnView {
                    status: Some(
                        StatusView {
                            image,
                            message:
                                "On Android: Wireless debugging → Pair device with QR code. Scan within 2 minutes"@,
                            active: true,
                        },
                    ),
                    action: QrActionView::See,
                },
            ),
        }
    }

    /// These phones offer to be paired.
    pub open spec fn scanned(self, services: Seq<ServiceView>) -> (AttemptView, QrTurnView) {
        if are_several(services, self.name) {
            self.over(
                Err("Multiple phones scanned this QR; cancel and pair one phone at a time"@),
            )
        } else {
            match offer_of(services, self.name) {
                None => self.on(QrActionView::Scan),
                Some(i) => match self.adb.pair_request(services[i].address, self.secret, true) {
                    Err(e) => self.over(Err(e)),
                    Ok(call) => (
                        AttemptView { stage: StageView::Pairing, ..self },
                        QrTurnView {
                            status: Some(showing("Phone found. Pairing…"@)),
                            action: QrActionView::Pair(call),
                        },
                    ),
                },
            }
        }
    }

    /// The helper that pairs ended at the time `now`.
    pub open spec fn paired(self, output: Result<Vec<u8>, &'static str>, now: u128) -> (
        AttemptView,
        QrTurnView,
    ) {
        match output {
            Err(e) => self.over(Err(e@)),
            Ok(b) => match adb::paired_in(text::lossy(b@)) {
                Err(e) => self.over(Err(e)),
                Ok(guid) => (
                    AttemptView {
                        guid,
                        secret: Seq::empty(),
                        auto: (now + AUTO_SPAN) as u128,
                        deadline: (now + WAIT_SPAN) as u128,
                        fallback: false,
                        stage: StageView::Connecting,
                        ..self
                    },
                    QrTurnView {
                        status: Some(
                            showing("Paired. Waiting for ADB's automatic Wi-Fi connection…"@),
                        ),
                        action: QrActionView::Look,
                    },
                ),
            },
        }
    }

    /// How long to wait for the next change.
    pub open spec fn until(self, now: u128) -> u128 {
        if now < self.auto {
            self.auto
        } else {
            self.deadline
        }
    }

    /// These transports are listed and these phones offer to be connected at the
    /// time `now`.
    pub open spec fn looked(
        self,
        devices: Seq<DeviceView>,
        services: Seq<ServiceView>,
        now: u128,
    ) -> (AttemptView, QrTurnView) {
        if pairing::is_connected(devices, self.guid, services) {
            self.over(Ok("Paired and connected. Select your phone, then enable sync"@))
        } else if now >= self.auto && !self.fallback {
            match lists::first_where(services, of_guid(self.guid)) {
                None => self.on(QrActionView::Watch(self.until(now))),
                Some(i) => match self.adb.connect_request(services[i].address) {
                    Err(e) => self.over(Err(e)),
                    Ok(call) => (AttemptView {
                        fallback: true,
                        stage: StageView::Dialing,
                        ..self
                    }).on(QrActionView::Dial(call)),
                },
            }
        } else {
            self.on(QrActionView::Watch(self.until(now)))
        }
    }

    /// The helper that connects ended.
    pub open spec fn dialed(self, output: Result<Vec<u8>, &'static str>, now: u128) -> (
        AttemptView,
        QrTurnView,
    ) {
        match output {
            Err(e) => self.over(Err(e@)),
            Ok(b) => if adb::is_connected_answer(b@) {
                (AttemptView { stage: StageView::Connecting, ..self }).on(
                    QrActionView::Watch(self.until(now)),
                )
            } else {
                self.over(Err(adb::not_connected()))
            },
        }
    }

    /// The state after an event at the time `now`, and what it leads to. An event
    /// for which the attempt does not wait changes nothing.
    pub open spec fn step(self, event: QrEvent, now: u128) -> (AttemptView, QrTurnView) {
        match (self.stage, event) {
            (StageView::Ended(_), _) => self.on(QrActionView::Nothing),
            (_, QrEvent::Cancelled) => self.over(Ok("QR pairing closed"@)),
            (_, QrEvent::Expired) => self.over(
                Ok("QR expired. Generate a new code; allow mDNS on the same Wi-Fi network"@),
            ),
            (_, QrEvent::PairingStopped(e)) => self.over(
                Err(
                    match e {
                        Some(e) => e@,
                        None => "mDNS pairing discovery stopped"@,
                    },
                ),
            ),
            (_, QrEvent::ConnectionStopped(e)) => self.over(
                Err(
                    match e {
                        Some(e) => e@,
                        None => "mDNS connection discovery stopped"@,
                    },
                ),
            ),
            (StageView::Imaging, QrEvent::Image(outcome)) => self.imaged(outcome),
            (StageView::Scanning, QrEvent::Services(services)) => self.scanned(
                services.deep_view(),
            ),
            (StageView::Scanning, QrEvent::ServicesGone) => self.over(
                Err("mDNS pairing discovery stopped"@),
            ),
            (StageView::Pairing, QrEvent::Paired(output)) => self.paired(output, now),
            (StageView::Connecting, QrEvent::Changed { devices, services }) => self.looked(
                devices.deep_view(),
                services.deep_view(),
                now,
            ),
            (StageView::Connecting, QrEvent::Tick { devices, services }) => if now
                >= self.deadline {
                self.over(
                    Ok("Paired. If absent, use the main Wireless debugging connection address below"@),
                )
            } else {
                self.looked(devices.deep_view(), services.deep_view(), now)
            },
            (StageView::Connecting, QrEvent::DevicesGone) => self.over(
                Err("ADB tracking stopped"@),
            ),
            (StageView::Connecting, QrEvent::ConnectionsGone) => self.over(
                Err("mDNS connection discovery stopped"@),
            ),
            (StageView::Dialing, QrEvent::Dialed(output)) => self.dialed(output, now),
            _ => self.on(QrActionView::Nothing),
        }
    }
}

fn find_named(services: &Vec<Service>, name: &str) -> (r: Option<usize>)
    ensures
        match r {
            Some(i) => i < services@.len() && lists::first_where(services.deep_view(), named(name@))
                == Some(i as int) && services.deep_view()[i as int].name == name@,
            None => lists::first_where(services.deep_view(), named(name@)) is None,
        },
{
    let ghost all = services.deep_view();
    let ghost f = named(name@);
    let mut i: usize = 0;
    while i < services.len()
        invariant
            i <= services@.len(),
            all == services.deep_view(),
            f == named(name@),
            forall|j: int| 0 <= j < i ==> !f(#[trigger] all[j]),
        decreases services@.len() - i,
    {
        assert(all[i as int] == services@[i as int]@);
        if text::same(&services[i].name, name) {
            proof {
                lists::lemma_is_first(all, f, i as int);
            }
            return Some(i);
        }
        i += 1;
    }
    proof {
        lists::lemma_none_is_first(all, f);
    }
    None
}

fn bracketed(address: &str) -> (r: bool)
    ensures
        r == is_bracketed(address@),
{
    proof {
        reveal_strlit("[");
        if is_bracketed(address@) {
            assert("["@ =~= address@.subrange(0, 1));
        } else if "["@.is_prefix_of(address@) {
            assert(address@.subrange(0, 1)[0] == '[');
        }
    }
    text::strip_prefix(address, "[").is_some()
}

fn find_offer(services: &Vec<Service>, name: &str) -> (r: Option<usize>)
    ensures
        match r {
            Some(i) => i < services@.len() && offer_of(services.deep_view(), name@) == Some(
                i as int,
            ),
            None => offer_of(services.deep_view(), name@) is None,
        },
{
    let ghost all = services.deep_view();
    let ghost f = plainly_named(name@);
    let mut i: usize = 0;
    while i < services.len()
        invariant
            i <= services@.len(),
            all == services.deep_view(),
            f == plainly_named(name@),
            forall|j: int| 0 <= j < i ==> !f(#[trigger] all[j]),
        decreases services@.len() - i,
    {
        assert(all[i as int] == services@[i as int]@);
        if text::same(&services[i].name, name) && !bracketed(&services[i].address) {
            proof {
                lists::lemma_is_first(all, f, i as int);
            }
            return Some(i);
        }
        i += 1;
    }
    proof {
        lists::lemma_none_is_first(all, f);
    }
    find_named(services, name)
}

fn find_guid(services: &Vec<Service>, guid: &str) -> (r: Option<usize>)
    ensures
        match r {
            Some(i) => i < services@.len() && lists::first_where(
                services.deep_view(),
                of_guid(guid@),
            ) == Some(i as int),
            None => lists::first_where(services.deep_view(), of_guid(guid@)) is None,
        },
{
    let ghost all = services.deep_view();
    let ghost f = of_guid(guid@);
    let mut i: usize = 0;
    while i < services.len()
        invariant
            i <= services@.len(),
            all == services.deep_view(),
            f == of_guid(guid@),
            forall|j: int| 0 <= j < i ==> !f(#[trigger] all[j]),
        decreases services@.len() - i,
    {
        assert(all[i as int] == services@[i as int]@);
        if matches_guid(&services[i].name, guid) {
            proof {
                lists::lemma_is_first(all, f, i as int);
            }
            return Some(i);
        }
        i += 1;
    }
    proof {
        lists::lemma_none_is_first(all, f);
    }
    None
}

fn several(services: &Vec<Service>, name: &str) -> (r: bool)
    ensures
        r == are_several(services.deep_view(), name@),
{
    let ghost all = services.deep_view();
    let first = match find_named(services, name) {
        Some(k) => k,
        None => {
            proof {
                lists::lemma_first_where(all, named(name@));
            }
            assert forall|i: int| 0 <= i < all.len() implies (#[trigger] all[i]).name != name@ by {
                assert(!named(name@)(all[i]));
            }
            return false;
        },
    };
    let ghost target = all[first as int].target;
    assert(target == services@[first as int]@.target);
    let mut i: usize = 0;
    while i < services.len()
        invariant
            i <= services@.len(),
            first < services@.len(),
            all == services.deep_view(),
            target == all[first as int].target,
            all[first as int].name == name@,
            target == services@[first as int]@.target,
            forall|j: int| 0 <= j < i && (#[trigger] all[j]).name == name@ ==> all[j].target == target,
        decreases services@.len() - i,
    {
        assert(all[i as int] == services@[i as int]@);
        if text::same(&services[i].name, name) && !text::same(
            &services[i].target,
            &services[first].target,
        ) {
            assert(all[first as int].name == name@ && all[i as int].name == name@);
            return true;
        }
        i += 1;
    }
    false
}

fn show(message: &str) -> (r: Status)
    ensures
        r@ == showing(message@),
{
    let image = String::new();
    assert(image@ =~= Seq::empty());
    Status { image, message: message.to_owned(), active: true }
}

impl Attempt {
    /// A new attempt, with a random name and a random secret.
    pub fn new(adb: Adb, name: Option<[u8; 8]>, secret: Option<[u8; 16]>) -> (r: (
        Attempt,
        QrTurn,
    ))
        ensures
            match (name, secret) {
                (Some(n), Some(s)) => {
                    &&& r.0@.adb == adb@
                    &&& r.0@.name == "studio-"@ + text::hex_of(n@)
                    &&& r.0@.secret == text::hex_of(s@)
                    &&& r.0@.stage is Imaging
                    &&& r.1@.status is None
                    &&& r.1@.action == QrActionView::Image(
                        pairing::qr_request(payload_of(r.0@.name, r.0@.secret)),
                    )
                },
                _ => r.0@.stage == StageView::Ended(
                    Err::<Seq<char>, Seq<char>>("System randomness unavailable"@),
                ) && (r.0@, r.1@) == r.0@.over(Err("System randomness unavailable"@)),
            },
            r.0@.inv(),
    {
        let mut attempt = Attempt {
            adb,
            name: String::new(),
            secret: String::new(),
            guid: String::new(),
            auto: 0,
            deadline: 0,
            fallback: false,
            stage: Stage::Imaging,
            start: Instant::now(),
        };
        match (name, secret) {
            (Some(n), Some(s)) => {
                attempt.name = text::pair("studio-", &text::hex(&n));
                attempt.secret = text::hex(&s);
                proof {
                    text::lemma_hex_of(s@);
                }
                let payload = text::pair(
                    &text::pair(
                        &text::pair(&text::pair("WIFI:T:ADB;S:", &attempt.name), ";P:"),
                        &attempt.secret,
                    ),
                    ";;",
                );
                let turn = QrTurn { status: None, action: QrAction::Image(qr_call(&payload)) };
                (attempt, turn)
            },
            _ => {
                let turn = attempt.over(Err("System randomness unavailable"));
                (attempt, turn)
            },
        }
    }

    fn over(&mut self, result: Result<&'static str, &'static str>) -> (r: QrTurn)
        ensures
            (final(self)@, r@) == old(self)@.over(result_view(result)),
    {
        self.stage = Stage::Ended(result);
        let image = String::new();
        assert(image@ =~= Seq::empty());
        match result {
            Ok(m) => QrTurn {
                status: Some(Status { image, message: m.to_owned(), active: false }),
                action: QrAction::End(Ok(())),
            },
            Err(e) => QrTurn {
                status: Some(Status { image, message: e.to_owned(), active: false }),
                action: QrAction::End(Err(e)),
            },
        }
    }

    fn imaged(&mut self, outcome: Outcome) -> (r: QrTurn)
        ensures
            (final(self)@, r@) == old(self)@.imaged(outcome),
    {
        match qr_image(outcome) {
            Err(e) => self.over(Err(e)),
            Ok(image) => {
                self.stage = Stage::Scanning;
                QrTurn {
                    status: Some(
                        Status {
                            image,
                            message:
                                "On Android: Wireless debugging → Pair device with QR code. Scan within 2 minutes".to_owned(),
                            active: true,
                        },
                    ),
                    action: QrAction::See,
                }
            },
        }
    }

    fn scanned(&mut self, services: Vec<Service>) -> (r: QrTurn)
        ensures
            (final(self)@, r@) == old(self)@.scanned(services.deep_view()),
    {
        if several(&services, &self.name) {
            return self.over(
                Err("Multiple phones scanned this QR; cancel and pair one phone at a time"),
            );
        }
        match find_offer(&services, &self.name) {
            None => QrTurn { status: None, action: QrAction::Scan },
            Some(i) => {
                assert(services.deep_view()[i as int] == services@[i as int]@);
                match self.adb.pair(&services[i].address, &self.secret, true) {
                    Err(e) => self.over(Err(e)),
                    Ok(call) => {
                        self.stage = Stage::Pairing;
                        QrTurn {
                            status: Some(show("Phone found. Pairing…")),
                            action: QrAction::Pair(call),
                        }
                    },
                }
            },
        }
    }

    fn paired(&mut self, output: Result<Vec<u8>, &'static str>, now: u128) -> (r: QrTurn)
        requires
            now <= MAX_SPAN,
        ensures
            (final(self)@, r@) == old(self)@.paired(output, now),
    {
        match output {
            Err(e) => self.over(Err(e)),
            Ok(b) => match adb::pair_result(&b) {
                Err(e) => self.over(Err(e)),
                Ok(guid) => {
                    self.guid = guid;
                    self.secret = String::new();
                    assert(self.secret@ =~= Seq::empty());
                    self.auto = now + AUTO_SPAN;
                    self.deadline = now + WAIT_SPAN;
                    self.fallback = false;
                    self.stage = Stage::Connecting;
                    QrTurn {
                        status: Some(show("Paired. Waiting for ADB's automatic Wi-Fi connection…")),
                        action: QrAction::Look,
                    }
                },
            },
        }
    }

    fn watch(&self, now: u128) -> (r: QrTurn)
        ensures
            r@ == self@.on(QrActionView::Watch(self@.until(now))).1,
    {
        let until: u128 = if now < self.auto {
            self.auto
        } else {
            self.deadline
        };
        QrTurn { status: None, action: QrAction::Watch(until) }
    }

    fn looked(&mut self, devices: Vec<Device>, services: Vec<Service>, now: u128) -> (r: QrTurn)
        ensures
            (final(self)@, r@) == old(self)@.looked(
                devices.deep_view(),
                services.deep_view(),
                now,
            ),
    {
        if connected(&devices, &self.guid, &services) {
            return self.over(Ok("Paired and connected. Select your phone, then enable sync"));
        }
        if now >= self.auto && !self.fallback {
            match find_guid(&services, &self.guid) {
                None => {},
                Some(i) => {
                    assert(services.deep_view()[i as int] == services@[i as int]@);
                    match self.adb.connect(&services[i].address) {
                        Err(e) => {
                            return self.over(Err(e));
                        },
                        Ok(call) => {
                            self.fallback = true;
                            self.stage = Stage::Dialing;
                            return QrTurn { status: None, action: QrAction::Dial(call) };
                        },
                    }
                },
            }
        }
        self.watch(now)
    }

    fn dialed(&mut self, output: Result<Vec<u8>, &'static str>, now: u128) -> (r: QrTurn)
        ensures
            (final(self)@, r@) == old(self)@.dialed(output, now),
    {
        match output {
            Err(e) => self.over(Err(e)),
            Ok(b) => match adb::connect_result(&b) {
                Err(e) => self.over(Err(e)),
                Ok(()) => {
                    self.stage = Stage::Connecting;
                    self.watch(now)
                },
            },
        }
    }

    /// Takes an event at the time `now`, in nanoseconds since the attempt began, and
    /// says what it leads to.
    pub fn run_at(&mut self, event: QrEvent, now: u128) -> (r: QrTurn)
        requires
            old(self)@.inv(),
            now <= MAX_SPAN,
        ensures
            (final(self)@, r@) == old(self)@.step(event, now),
            final(self)@.inv(),
    {
        match (self.stage, event) {
            (Stage::Ended(_), _) => QrTurn { status: None, action: QrAction::Nothing },
            (_, QrEvent::Cancelled) => self.over(Ok("QR pairing closed")),
            (_, QrEvent::Expired) => self.over(
                Ok("QR expired. Generate a new code; allow mDNS on the same Wi-Fi network"),
            ),
            (_, QrEvent::PairingStopped(e)) => self.over(
                Err(
                    match e {
                        Some(e) => e,
                        None => "mDNS pairing discovery stopped",
                    },
                ),
            ),
            (_, QrEvent::ConnectionStopped(e)) => self.over(
                Err(
                    match e {
                        Some(e) => e,
                        None => "mDNS connection discovery stopped",
                    },
                ),
            ),
            (Stage::Imaging, QrEvent::Image(outcome)) => self.imaged(outcome),
            (Stage::Scanning, QrEvent::Services(services)) => self.scanned(services),
            (Stage::Scanning, QrEvent::ServicesGone) => self.over(
                Err("mDNS pairing discovery stopped"),
            ),
            (Stage::Pairing, QrEvent::Paired(output)) => self.paired(output, now),
            (Stage::Connecting, QrEvent::Changed { devices, services }) => self.looked(
                devices,
                services,
                now,
            ),
            (Stage::Connecting, QrEvent::Tick { devices, services }) => if now >= self.deadline {
                self.over(
                    Ok("Paired. If absent, use the main Wireless debugging connection address below"),
                )
            } else {
                self.looked(devices, services, now)
            },
            (Stage::Connecting, QrEvent::DevicesGone) => self.over(Err("ADB tracking stopped")),
            (Stage::Connecting, QrEvent::ConnectionsGone) => self.over(
                Err("mDNS connection discovery stopped"),
            ),
            (Stage::Dialing, QrEvent::Dialed(output)) => self.dialed(output, now),
            _ => QrTurn { status: None, action: QrAction::Nothing },
        }
    }

    /// The time since the attempt began, in nanoseconds.
    pub fn now(&self) -> (r: u128)
        ensures
            r <= MAX_SPAN,
    {
        nanos_since(&self.start)
    }

    /// Takes an event, and says what it leads to.
    pub fn run(&mut self, event: QrEvent) -> (r: QrTurn)
        requires
            old(self)@.inv(),
        ensures
            exists|now: u128|
                now <= MAX_SPAN && (final(self)@, r@) == #[trigger] old(self)@.step(event, now),
            final(self)@.inv(),
    {
        let now: u128 = self.now();
        let ghost e = event;
        let r = self.run_at(event, now);
        assert((self@, r@) == old(self)@.step(e, now));
        r
    }
}

impl AttemptView {
    /// The secret is known only until the phone is paired, and can be a secret.
    pub open spec fn inv(self) -> bool {
        match self.stage {
            StageView::Imaging => adb::good_secret(self.secret, true),
            StageView::Scanning => adb::good_secret(self.secret, true),
            StageView::Pairing => adb::good_secret(self.secret, true),
            StageView::Connecting => self.secret.len() == 0,
            StageView::Dialing => self.secret.len() == 0 && self.fallback,
            StageView::Ended(_) => true,
        }
    }
}

// ---------------------------------------------------------------------------
// Laws
// ---------------------------------------------------------------------------
/// A phone is paired only where it offers itself under the random name of the
/// attempt, and no other phone does.
pub proof fn law_only_the_scanning_phone_is_paired(a: AttemptView, event: QrEvent, now: u128)
    ensures
        a.step(event, now).1.action matches QrActionView::Pair(call) ==> {
            &&& a.stage is Scanning
            &&& event matches QrEvent::Services(services) && !are_several(
                services.deep_view(),
                a.name,
            ) && exists|i: int|
                0 <= i < services.deep_view().len() && (#[trigger] services.deep_view()[i]).name
                    == a.name && a.adb.pair_request(
                    services.deep_view()[i].address,
                    a.secret,
                    true,
                ) == Ok::<CallView, Seq<char>>(call)
        },
{
    if let QrActionView::Pair(call) = a.step(event, now).1.action {
        match event {
            QrEvent::Services(services) => {
                let all = services.deep_view();
                lemma_offer_of(all, a.name);
                let i = offer_of(all, a.name)->0;
                assert(all[i].name == a.name);
            },
            _ => {},
        }
    }
}

/// The service that is paired with has the name, and is no IPv6 endpoint where one
/// with the name is none.
proof fn lemma_offer_of(services: Seq<ServiceView>, name: Seq<char>)
    ensures
        match offer_of(services, name) {
            Some(i) => 0 <= i < services.len() && services[i].name == name && (is_bracketed(
                services[i].address,
            ) ==> forall|j: int|
                0 <= j < services.len() && (#[trigger] services[j]).name == name ==> is_bracketed(
                    services[j].address,
                )),
            None => forall|j: int|
                0 <= j < services.len() ==> (#[trigger] services[j]).name != name,
        },
{
    let f = plainly_named(name);
    let g = named(name);
    lists::lemma_first_where(services, f);
    lists::lemma_first_where(services, g);
    if lists::first_where(services, f) is None {
        assert forall|j: int|
            0 <= j < services.len() && (#[trigger] services[j]).name == name implies is_bracketed(
            services[j].address,
        ) by {
            assert(!f(services[j]));
        }
        assert forall|j: int|
            0 <= j < services.len() && lists::first_where(services, g) is None implies (
        #[trigger] services[j]).name != name by {
            assert(!g(services[j]));
        }
    }
}

/// Where a phone offers itself at several endpoints and one of them is no IPv6
/// endpoint, it is paired with at such a one.
pub proof fn law_ipv4_endpoint_is_preferred(
    a: AttemptView,
    services: Vec<Service>,
    now: u128,
    j: int,
)
    requires
        0 <= j < services.deep_view().len(),
        services.deep_view()[j].name == a.name,
        services.deep_view()[j].address.len() == 0 || services.deep_view()[j].address[0] != '[',
    ensures
        a.step(QrEvent::Services(services), now).1.action matches QrActionView::Pair(call) ==> exists|
            i: int,
        |
            0 <= i < services.deep_view().len() && (#[trigger] services.deep_view()[i]).name
                == a.name && (services.deep_view()[i].address.len() == 0
                || services.deep_view()[i].address[0] != '[') && a.adb.pair_request(
                services.deep_view()[i].address,
                a.secret,
                true,
            ) == Ok::<CallView, Seq<char>>(call),
{
    let all = services.deep_view();
    lemma_offer_of(all, a.name);
    let i = offer_of(all, a.name)->0;
    assert(all[i].name == a.name && !is_bracketed(all[i].address));
}

/// The phone is connected explicitly only once, and only when the server has had
/// time to connect by itself.
pub proof fn law_phone_is_dialed_once(a: AttemptView, event: QrEvent, now: u128)
    ensures
        a.step(event, now).1.action is Dial ==> a.stage is Connecting && !a.fallback && now
            >= a.auto && a.step(event, now).0.fallback,
        a.fallback && !(a.stage is Pairing) ==> a.step(event, now).0.fallback,
        a.step(event, now).0.stage is Pairing && !(a.stage is Pairing) ==> a.stage is Scanning,
        a.step(event, now).0.stage is Scanning && !(a.stage is Scanning) ==> a.stage is Imaging,
        !(a.stage is Imaging) ==> !(a.step(event, now).0.stage is Imaging),
{
}

/// An attempt that is over does nothing more.
pub proof fn law_ended_attempt_stays_ended(a: AttemptView, event: QrEvent, now: u128)
    requires
        a.stage is Ended,
    ensures
        a.step(event, now).0 == a,
        a.step(event, now).1.status is None,
        a.step(event, now).1.action is Nothing,
{
}

/// An attempt that is over shows no image.
pub proof fn law_ended_attempt_shows_no_image(a: AttemptView, event: QrEvent, now: u128)
    ensures
        a.step(event, now).0.stage is Ended && !(a.stage is Ended) ==> {
            &&& a.step(event, now).1.status matches Some(s) && s.image.len() == 0 && !s.active
        },
{
}

/// The QR code holds the name and the secret of the attempt in this form.
pub proof fn law_qr_codes(name: Seq<char>, secret: Seq<char>)
    ensures
        payload_of(name, secret) == "WIFI:T:ADB;S:"@ + name + ";P:"@ + secret + ";;"@,
{
}

/// The image of the code is shown once it was made, and then the phones that offer to
/// be paired are looked for; without an image the attempt ends with the reason.
pub proof fn law_images_are_shown(a: AttemptView, outcome: Outcome, now: u128)
    requires
        a.stage is Imaging,
    ensures
        ({
            let (b, turn) = a.step(QrEvent::Image(outcome), now);
            match pairing::image_in(outcome) {
                Ok(image) => {
                    &&& b == (AttemptView { stage: StageView::Scanning, ..a })
                    &&& turn.action is See
                    &&& turn.status matches Some(s) && s.image == image && s.active && s.message
                        == "On Android: Wireless debugging → Pair device with QR code. Scan within 2 minutes"@
                },
                Err(e) => b.stage == StageView::Ended(Err::<Seq<char>, Seq<char>>(e)) && turn.action
                    == QrActionView::End(Err::<(), Seq<char>>(e)),
            }
        }),
{
}

/// While no phone offers itself under the name of the attempt, it is waited for. Where
/// one does, and no other, it is paired with at its endpoint, with the secret; where
/// several do, none is, and the attempt ends.
pub proof fn law_scanning_phones_are_paired(a: AttemptView, services: Vec<Service>, now: u128)
    requires
        a.stage is Scanning,
    ensures
        ({
            let all = services.deep_view();
            let (b, turn) = a.step(QrEvent::Services(services), now);
            let several = exists|i: int, j: int|
                0 <= i < all.len() && 0 <= j < all.len() && (#[trigger] all[i]).name == a.name && (
                #[trigger] all[j]).name == a.name && all[i].target != all[j].target;
            let offered = exists|i: int| 0 <= i < all.len() && (#[trigger] all[i]).name == a.name;
            &&& several ==> turn.action == QrActionView::End(
                Err::<(), Seq<char>>(
                    "Multiple phones scanned this QR; cancel and pair one phone at a time"@,
                ),
            )
            &&& !offered ==> b == a && turn.action is Scan && turn.status is None
            &&& offered && !several ==> {
                ||| turn.action is Pair && b == (AttemptView { stage: StageView::Pairing, ..a })
                    && (turn.status matches Some(s) && s.active && s.image.len() == 0 && s.message
                    == "Phone found. Pairing…"@)
                ||| turn.action is End && exists|i: int|
                    0 <= i < all.len() && (#[trigger] all[i]).name == a.name && a.adb.pair_request(
                        all[i].address,
                        a.secret,
                        true,
                    ) is Err
            }
        }),
        ({
            let (b, turn) = a.step(QrEvent::ServicesGone, now);
            turn.action == QrActionView::End(
                Err::<(), Seq<char>>("mDNS pairing discovery stopped"@),
            )
        }),
{
    let all = services.deep_view();
    lemma_offer_of(all, a.name);
    if let Some(i) = offer_of(all, a.name) {
        assert(all[i].name == a.name);
    }
}

/// A phone counts as paired exactly where the helper says that it was successfully
/// paired. From then on the secret is forgotten, the phone is known by the identifier
/// in the answer, and it is waited for: three seconds for the server to connect by
/// itself, ten in all. Any other answer, and a helper that failed, ends the attempt
/// with an error.
pub proof fn law_phones_are_paired_where_the_helper_says_so(
    a: AttemptView,
    output: Result<Vec<u8>, &'static str>,
    now: u128,
)
    requires
        a.stage is Pairing,
        now <= MAX_SPAN,
    ensures
        ({
            let (b, turn) = a.step(QrEvent::Paired(output), now);
            match output {
                Err(e) => b.stage == StageView::Ended(Err::<Seq<char>, Seq<char>>(e@))
                    && turn.action == QrActionView::End(Err::<(), Seq<char>>(e@)),
                Ok(answer) => if text::occurs(text::lossy(answer@), "Successfully paired"@) {
                    &&& b == (AttemptView {
                        guid: adb::guid_in(text::lossy(answer@)),
                        secret: Seq::empty(),
                        auto: (now + 3_000_000_000) as u128,
                        deadline: (now + 10_000_000_000) as u128,
                        fallback: false,
                        stage: StageView::Connecting,
                        ..a
                    })
                    &&& turn.action is Look
                    &&& turn.status matches Some(s) && s.active && s.image.len() == 0 && s.message
                        == "Paired. Waiting for ADB's automatic Wi-Fi connection…"@
                } else {
                    &&& b.stage == StageView::Ended(
                        Err::<Seq<char>, Seq<char>>(
                            "Pairing failed; generate a new QR/code and check the pairing port"@,
                        ),
                    )
                    &&& turn.action == QrActionView::End(
                        Err::<(), Seq<char>>(
                            "Pairing failed; generate a new QR/code and check the pairing port"@,
                        ),
                    )
                    &&& turn.status matches Some(s) && !s.active && s.message
                        == "Pairing failed; generate a new QR/code and check the pairing port"@
                },
            }
        }),
{
}

/// Only a successful answer of the pairing helper leads to a phone that is waited for.
pub proof fn law_only_paired_phones_are_waited_for(a: AttemptView, event: QrEvent, now: u128)
    ensures
        a.step(event, now).0.stage is Connecting && !(a.stage is Connecting) ==> {
            ||| a.stage is Dialing
            ||| a.stage is Pairing && (event matches QrEvent::Paired(Ok(answer)) && text::occurs(
                text::lossy(answer@),
                "Successfully paired"@,
            ))
        },
        a.step(event, now).0.guid != a.guid ==> a.stage is Pairing,
{
}

/// A paired phone that is connected ends the attempt well. Until the server has had its
/// time, and after the phone was connected explicitly, it is only waited for; in
/// between it is connected explicitly, where it offers itself. When its time is over,
/// the attempt ends all the same.
pub proof fn law_paired_phones_are_waited_for(
    a: AttemptView,
    devices: Vec<Device>,
    services: Vec<Service>,
    now: u128,
)
    requires
        a.stage is Connecting,
    ensures
        ({
            let ds = devices.deep_view();
            let all = services.deep_view();
            let (b, turn) = a.step(QrEvent::Changed { devices, services }, now);
            let until = if now < a.auto {
                a.auto
            } else {
                a.deadline
            };
            let offers = |s: ServiceView| pairing::is_guid_match(s.name, a.guid);
            if pairing::is_connected(ds, a.guid, all) {
                &&& turn.action == QrActionView::End(Ok::<(), Seq<char>>(()))
                &&& turn.status matches Some(s) && !s.active && s.message
                    == "Paired and connected. Select your phone, then enable sync"@
            } else if now < a.auto || a.fallback || lists::first_where(all, offers) is None {
                b == a && turn.action == QrActionView::Watch(until) && turn.status is None
            } else {
                let i = lists::first_where(all, offers)->0;
                match a.adb.connect_request(all[i].address) {
                    Ok(call) => turn.action == QrActionView::Dial(call) && b == (AttemptView {
                        fallback: true,
                        stage: StageView::Dialing,
                        ..a
                    }),
                    Err(e) => turn.action == QrActionView::End(Err::<(), Seq<char>>(e)),
                }
            }
        }),
        now < a.deadline ==> a.step(QrEvent::Tick { devices, services }, now) == a.step(
            QrEvent::Changed { devices, services },
            now,
        ),
        now >= a.deadline ==> a.step(QrEvent::Tick { devices, services }, now).1.action
            == QrActionView::End(Ok::<(), Seq<char>>(())) && (a.step(
            QrEvent::Tick { devices, services },
            now,
        ).1.status matches Some(s) && !s.active && s.message
            == "Paired. If absent, use the main Wireless debugging connection address below"@),
        a.step(QrEvent::DevicesGone, now).1.action == QrActionView::End(
            Err::<(), Seq<char>>("ADB tracking stopped"@),
        ),
        a.step(QrEvent::ConnectionsGone, now).1.action == QrActionView::End(
            Err::<(), Seq<char>>("mDNS connection discovery stopped"@),
        ),
{
    let offers = |s: ServiceView| pairing::is_guid_match(s.name, a.guid);
    assert(of_guid(a.guid) =~= offers);
}

/// A phone that was connected explicitly is waited for like one that the server
/// connects; one that was not ends the attempt with the reason.
pub proof fn law_dialed_phones_are_waited_for(
    a: AttemptView,
    output: Vec<u8>,
    e: &'static str,
    now: u128,
)
    requires
        a.stage is Dialing,
    ensures
        adb::is_connected_answer(output@) ==> a.step(QrEvent::Dialed(Ok(output)), now).0 == (
        AttemptView { stage: StageView::Connecting, ..a }) && a.step(
            QrEvent::Dialed(Ok(output)),
            now,
        ).1.action == QrActionView::Watch(
            if now < a.auto {
                a.auto
            } else {
                a.deadline
            },
        ),
        !adb::is_connected_answer(output@) ==> a.step(QrEvent::Dialed(Ok(output)), now).1.action
            == QrActionView::End(
            Err::<(), Seq<char>>(
                "Connection failed; use the main Wireless debugging connection port, not the pairing port"@,
            ),
        ),
        a.step(QrEvent::Dialed(Err(e)), now).1.action == QrActionView::End(
            Err::<(), Seq<char>>(e@),
        ),
{
}

/// Until it is over, an attempt can be given up, runs out of time, and ends with the
/// discovery. However it ends, what is shown is the reason, and no attempt.
pub proof fn law_attempts_can_end_at_any_time(a: AttemptView, e: &'static str, now: u128)
    requires
        !(a.stage is Ended),
    ensures
        a.step(QrEvent::Cancelled, now).1 == (QrTurnView {
            status: Some(
                StatusView { image: Seq::empty(), message: "QR pairing closed"@, active: false },
            ),
            action: QrActionView::End(Ok::<(), Seq<char>>(())),
        }),
        a.step(QrEvent::Expired, now).1 == (QrTurnView {
            status: Some(
                StatusView {
                    image: Seq::empty(),
                    message:
                        "QR expired. Generate a new code; allow mDNS on the same Wi-Fi network"@,
                    active: false,
                },
            ),
            action: QrActionView::End(Ok::<(), Seq<char>>(())),
        }),
        a.step(QrEvent::PairingStopped(Some(e)), now).1 == (QrTurnView {
            status: Some(StatusView { image: Seq::empty(), message: e@, active: false }),
            action: QrActionView::End(Err::<(), Seq<char>>(e@)),
        }),
        a.step(QrEvent::PairingStopped(None), now).1.action == QrActionView::End(
            Err::<(), Seq<char>>("mDNS pairing discovery stopped"@),
        ),
        a.step(QrEvent::ConnectionStopped(Some(e)), now).1 == a.step(
            QrEvent::PairingStopped(Some(e)),
            now,
        ).1,
        a.step(QrEvent::ConnectionStopped(None), now).1.action == QrActionView::End(
            Err::<(), Seq<char>>("mDNS connection discovery stopped"@),
        ),
{
}

/// What is shown when an attempt ends is why it ended, and it ends as it is said.
pub proof fn law_ends_are_told(a: AttemptView, event: QrEvent, now: u128)
    ensures
        ({
            let (b, turn) = a.step(event, now);
            &&& turn.action is End <==> b.stage is Ended && !(a.stage is Ended)
            &&& turn.action is End ==> match b.stage {
                StageView::Ended(Ok(m)) => turn.action == QrActionView::End(
                    Ok::<(), Seq<char>>(()),
                ) && (turn.status matches Some(s) && s.message == m),
                StageView::Ended(Err(e)) => turn.action == QrActionView::End(
                    Err::<(), Seq<char>>(e),
                ) && (turn.status matches Some(s) && s.message == e),
                _ => false,
            }
        }),
        match (a.stage, event) {
            (StageView::Ended(_), _) => true,
            (_, QrEvent::Cancelled) => true,
            (_, QrEvent::Expired) => true,
            (_, QrEvent::PairingStopped(_)) => true,
            (_, QrEvent::ConnectionStopped(_)) => true,
            (StageView::Imaging, QrEvent::Image(_)) => true,
            (StageView::Scanning, QrEvent::Services(_)) => true,
            (StageView::Scanning, QrEvent::ServicesGone) => true,
            (StageView::Pairing, QrEvent::Paired(_)) => true,
            (StageView::Connecting, QrEvent::Changed { .. }) => true,
            (StageView::Connecting, QrEvent::Tick { .. }) => true,
            (StageView::Connecting, QrEvent::DevicesGone) => true,
            (StageView::Connecting, QrEvent::ConnectionsGone) => true,
            (StageView::Dialing, QrEvent::Dialed(_)) => true,
            _ => a.step(event, now) == (
                a,
                QrTurnView { status: None, action: QrActionView::Nothing },
            ),
        },
{
}

} // verus!
