//! The bridge as a whole: what is selected, what runs, and what is shown.
//!
//! A [`Daemon`] takes one thing that happened at a time. Where that leads to work
//! that takes its time, the daemon asks for it by a [`Step`] and goes on when it is
//! told the [`Reply`].
use crate::adb::{self, endpoint, Adb, AdbView};
use crate::clock::{self, nanos_since, time_left, MAX_SPAN};
use crate::command::{self, Command, CommandView, Json, JsonView};
use crate::config::{Config, ConfigView};
use crate::devices::{
    self, choose_transport, copy_all, find_serial, group, same_all, Device, DeviceView,
};
use crate::identities::{self, Key};
use crate::lists;
use crate::pairing;
use crate::process::{Call, CallView};
use crate::text;
use crate::tracking::{self, MAX_DELAY};
use tokio::time::Instant;
use vstd::prelude::*;

verus! {

// ---------------------------------------------------------------------------
// What is shown
// ---------------------------------------------------------------------------
/// What the panel shows.
pub struct Status {
    pub state: String,
    pub message: String,
    pub action: String,
    pub selected: String,
    pub enabled: bool,
    pub devices: Vec<Device>,
    pub qr_image: String,
    pub qr_active: bool,
}

/// What a [`Status`] holds.
pub struct StatusView {
    pub state: Seq<char>,
    pub message: Seq<char>,
    pub action: Seq<char>,
    pub selected: Seq<char>,
    pub enabled: bool,
    pub devices: Seq<DeviceView>,
    pub qr_image: Seq<char>,
    pub qr_active: bool,
}

impl View for Status {
    type V = StatusView;

    open spec fn view(&self) -> StatusView {
        StatusView {
            state: self.state@,
            message: self.message@,
            action: self.action@,
            selected: self.selected@,
            enabled: self.enabled,
            devices: self.devices.deep_view(),
            qr_image: self.qr_image@,
            qr_active: self.qr_active,
        }
    }
}

impl Clone for Status {
    fn clone(&self) -> (r: Self)
        ensures
            r@ == self@,
    {
        Status {
            state: self.state.clone(),
            message: self.message.clone(),
            action: self.action.clone(),
            selected: self.selected.clone(),
            enabled: self.enabled,
            devices: copy_all(&self.devices),
            qr_image: self.qr_image.clone(),
            qr_active: self.qr_active,
        }
    }
}

fn same_status(a: &Status, b: &Status) -> (r: bool)
    ensures
        r == (a@ == b@),
{
    text::same(&a.state, &b.state) && text::same(&a.message, &b.message) && text::same(
        &a.action,
        &b.action,
    ) && text::same(&a.selected, &b.selected) && a.enabled == b.enabled && same_all(
        &a.devices,
        &b.devices,
    ) && text::same(&a.qr_image, &b.qr_image) && a.qr_active == b.qr_active
}

// ---------------------------------------------------------------------------
// Work
// ---------------------------------------------------------------------------
/// What the daemon waits for.
pub enum Phase {
    /// Nothing.
    Idle,
    /// The QR attempt is stopped, then this command goes on.
    Qr(Command),
    /// The session is stopped, then this command goes on.
    Session(Command),
    /// The pause is stored, then this command goes on.
    Pause(Command),
    /// The phone with this serial is asked for its identity.
    Identify(String),
    /// The selection is stored.
    Keep,
    /// The last Wi-Fi action is put away, then this command goes on.
    Action(Command),
    /// The session is stopped, then one on this transport, if any, is begun.
    Halt(Option<Device>),
    /// The new serial is stored, then a session on this transport is begun.
    Rename(Device),
    /// The clipboard is suspended after a session that ended like this.
    Suspend(&'static str),
}

/// What a [`Phase`] holds.
pub enum PhaseView {
    Idle,
    Qr(CommandView),
    Session(CommandView),
    Pause(CommandView),
    Identify(Seq<char>),
    Keep,
    Action(CommandView),
    Halt(Option<DeviceView>),
    Rename(DeviceView),
    Suspend(Seq<char>),
}

impl View for Phase {
    type V = PhaseView;

    open spec fn view(&self) -> PhaseView {
        match self {
            Phase::Idle => PhaseView::Idle,
            Phase::Qr(c) => PhaseView::Qr(c@),
            Phase::Session(c) => PhaseView::Session(c@),
            Phase::Pause(c) => PhaseView::Pause(c@),
            Phase::Identify(serial) => PhaseView::Identify(serial@),
            Phase::Keep => PhaseView::Keep,
            Phase::Action(c) => PhaseView::Action(c@),
            Phase::Halt(d) => PhaseView::Halt(d.deep_view()),
            Phase::Rename(d) => PhaseView::Rename(d@),
            Phase::Suspend(e) => PhaseView::Suspend(e@),
        }
    }
}

/// What came of the work.
pub enum Reply {
    /// What was to be stopped is stopped. A Wi-Fi action goes on, or not.
    Stopped { running: bool },
    /// The configuration was stored, or not.
    Saved(Result<(), &'static str>),
    /// The phone was asked for its identity.
    Identified(Result<Vec<u8>, &'static str>),
}

/// The work to do.
pub enum Step {
    /// None. The daemon is ready for the next thing.
    Done,
    /// Stop the QR attempt, if there is one.
    StopQr,
    /// Stop the session, if there is one, and suspend the clipboard.
    StopSession,
    /// Put away the last Wi-Fi action, if there is one.
    StopAction,
    /// Suspend the clipboard.
    Suspend,
    /// Store the configuration.
    Save(Config),
    /// Ask a phone for its identity.
    Identify(Call),
    /// Begin a QR attempt.
    StartQr,
    /// Begin a Wi-Fi action: run this helper, where it can be.
    StartAction { pair: bool, call: Result<Call, &'static str> },
    /// Begin a session on this transport with the phone of this identity.
    StartSession { device: Device, identity: String },
}

/// What a [`Step`] holds.
pub enum StepView {
    Done,
    StopQr,
    StopSession,
    StopAction,
    Suspend,
    Save(ConfigView),
    Identify(CallView),
    StartQr,
    StartAction { pair: bool, call: Result<CallView, Seq<char>> },
    StartSession { device: DeviceView, identity: Seq<char> },
}

impl View for Step {
    type V = StepView;

    open spec fn view(&self) -> StepView {
        match self {
            Step::Done => StepView::Done,
            Step::StopQr => StepView::StopQr,
            Step::StopSession => StepView::StopSession,
            Step::StopAction => StepView::StopAction,
            Step::Suspend => StepView::Suspend,
            Step::Save(c) => StepView::Save(c@),
            Step::Identify(c) => StepView::Identify(c@),
            Step::StartQr => StepView::StartQr,
            Step::StartAction { pair, call } => StepView::StartAction {
                pair: *pair,
                call: match call {
                    Ok(c) => Ok(c@),
                    Err(e) => Err(e@),
                },
            },
            Step::StartSession { device, identity } => StepView::StartSession {
                device: device@,
                identity: identity@,
            },
        }
    }
}

/// The bridge.
pub struct Daemon {
    adb: Adb,
    config: Config,
    devices: Vec<Device>,
    error: Option<&'static str>,
    session: Option<(String, String)>,
    qr: pairing::Status,
    state: String,
    message: String,
    action: String,
    retry: Option<u128>,
    delay: u64,
    phase: Phase,
    last: Option<Status>,
    start: Instant,
}

/// What a [`Daemon`] holds.
pub struct DaemonView {
    pub adb: AdbView,
    pub config: ConfigView,
    /// The listed transports.
    pub devices: Seq<DeviceView>,
    /// Why none can be listed, if so.
    pub error: Option<Seq<char>>,
    /// The transport of the session, if there is one.
    pub session: Option<Key>,
    /// What is shown of the QR attempt.
    pub qr: pairing::StatusView,
    pub state: Seq<char>,
    pub message: Seq<char>,
    pub action: Seq<char>,
    /// When the next session may begin, if not now.
    pub retry: Option<u128>,
    /// The pause after the next session that ends is twice as long, in seconds.
    pub delay: u64,
    pub phase: PhaseView,
    /// What was shown last.
    pub last: Option<StatusView>,
}

spec fn key_in(k: Option<(String, String)>) -> Option<Key> {
    match k {
        Some((serial, id)) => Some((serial@, id@)),
        None => None,
    }
}

impl View for Daemon {
    type V = DaemonView;

    closed spec fn view(&self) -> DaemonView {
        DaemonView {
            adb: self.adb@,
            config: self.config@,
            devices: self.devices.deep_view(),
            error: match self.error {
                Some(e) => Some(e@),
                None => None,
            },
            session: key_in(self.session),
            qr: self.qr@,
            state: self.state@,
            message: self.message@,
            action: self.action@,
            retry: self.retry,
            delay: self.delay,
            phase: self.phase@,
            last: match self.last {
                Some(s) => Some(s@),
                None => None,
            },
        }
    }
}

/// The state of the transport with a serial, if it is listed.
pub open spec fn state_of(ds: Seq<DeviceView>, serial: Seq<char>) -> Option<Seq<char>> {
    match lists::first_where(ds, with_serial(serial)) {
        Some(i) => Some(ds[i].state),
        None => None,
    }
}

/// The class of transports with a serial.
pub open spec fn with_serial(serial: Seq<char>) -> spec_fn(DeviceView) -> bool {
    |d: DeviceView| d.serial == serial
}

/// One second, in nanoseconds.
pub const SECOND: u128 = 1000000000;

impl DaemonView {
    /// The clipboard is shared only with a selected phone, a session runs only while
    /// it is shared, and the pause between sessions is bounded.
    pub open spec fn inv(self) -> bool {
        &&& self.config.enabled ==> self.config.identity.len() > 0
        &&& self.session is Some ==> self.config.enabled
        &&& 1 <= self.delay <= MAX_DELAY
        &&& self.phase is Session ==> self.session is None && !self.config.enabled
        &&& self.phase is Pause ==> self.session is None && !self.config.enabled
        &&& self.phase is Identify ==> self.session is None && !self.config.enabled
        &&& self.phase is Keep ==> self.session is None
        &&& self.phase is Halt ==> self.config.enabled && self.session is None
        &&& self.phase is Rename ==> self.config.enabled
    }

    /// What the panel shows.
    pub open spec fn status(self) -> StatusView {
        StatusView {
            state: self.state,
            message: self.message,
            action: self.action,
            selected: self.config.serial,
            enabled: self.config.enabled,
            devices: devices::grouped(self.devices, self.config.serial),
            qr_image: self.qr.image,
            qr_active: self.qr.active,
        }
    }

    /// The daemon waits for other work.
    pub open spec fn at(self, phase: PhaseView) -> DaemonView {
        DaemonView { phase, ..self }
    }

    /// The work is done.
    pub open spec fn done(self) -> (DaemonView, StepView) {
        (self.at(PhaseView::Idle), StepView::Done)
    }

    /// A command cannot be carried out (any further).
    pub open spec fn failed(self, e: Seq<char>) -> (DaemonView, StepView) {
        DaemonView { action: e, ..self }.done()
    }

    /// There is no session.
    pub open spec fn halted(self) -> DaemonView {
        DaemonView { session: None, retry: None, ..self }
    }

    /// A command begins.
    pub open spec fn begun(self, json: JsonView) -> (DaemonView, StepView) {
        match command::command_in(json) {
            Err(e) => self.failed(e),
            Ok(CommandView::Refresh) => DaemonView { retry: None, ..self }.done(),
            Ok(c) => (
                DaemonView {
                    qr: pairing::StatusView {
                        image: Seq::empty(),
                        message: Seq::empty(),
                        active: false,
                    },
                    phase: PhaseView::Qr(c),
                    ..self
                },
                StepView::StopQr,
            ),
        }
    }

    /// The QR attempt is stopped.
    pub open spec fn after_qr(self, c: CommandView, running: bool) -> (DaemonView, StepView) {
        match c {
            CommandView::Refresh => self.done(),
            CommandView::QrCancel => DaemonView { action: "QR pairing closed"@, ..self }.done(),
            CommandView::QrStart => if running {
                self.failed("Wait for the current Wi-Fi action to finish"@)
            } else {
                (
                    DaemonView { action: "Generating QR code…"@, phase: PhaseView::Idle, ..self },
                    StepView::StartQr,
                )
            },
            CommandView::Reach { .. } => if running {
                self.failed("Wait for the current Wi-Fi action to finish"@)
            } else {
                (self.at(PhaseView::Action(c)), StepView::StopAction)
            },
            _ => (
                DaemonView {
                    config: ConfigView { enabled: false, ..self.config },
                    phase: PhaseView::Session(c),
                    ..self.halted()
                },
                StepView::StopSession,
            ),
        }
    }

    /// The session is stopped: sharing is paused.
    pub open spec fn paused(self, c: CommandView) -> (DaemonView, StepView) {
        (
            DaemonView {
                state: "paused"@,
                message: "Paused; no clipboard changes are being shared"@,
                phase: PhaseView::Pause(c),
                ..self
            },
            StepView::Save(self.config),
        )
    }

    /// A selection is to be stored.
    pub open spec fn keeping(self, config: ConfigView, message: Seq<char>) -> (
        DaemonView,
        StepView,
    ) {
        (
            DaemonView { config, message, phase: PhaseView::Keep, ..self },
            StepView::Save(config),
        )
    }

    /// A phone is to be selected.
    pub open spec fn selecting(self, serial: Option<Seq<char>>) -> (DaemonView, StepView) {
        match serial {
            None => self.failed("Select a ready phone from the list"@),
            Some(serial) => match lists::first_where(
                self.devices,
                devices::ready_serial(serial),
            ) {
                None => self.failed("Select a ready, authorized phone from the list"@),
                Some(i) => if adb::is_transport_id(self.devices[i].id) {
                    (
                        self.at(PhaseView::Identify(self.devices[i].serial)),
                        StepView::Identify(
                            self.adb.device_call(
                                self.devices[i].id,
                                seq!["shell"@, "getprop"@, "ro.serialno"@],
                            ),
                        ),
                    )
                } else {
                    self.failed(adb::no_transport_id())
                },
            },
        }
    }

    /// Sharing is to be begun or not.
    pub open spec fn enabling(self, enabled: Option<bool>) -> (DaemonView, StepView) {
        match enabled {
            None => self.failed("enabled must be true or false"@),
            Some(enabled) => if enabled && !self.config.is_selected() {
                self.failed("Select a phone before enabling clipboard sync"@)
            } else {
                self.keeping(
                    ConfigView { enabled, ..self.config },
                    if enabled {
                        "Connecting; existing clipboards are preserved"@
                    } else {
                        "Paused; copies made while paused will not be replayed"@
                    },
                )
            },
        }
    }

    /// The pause is stored.
    pub open spec fn after_pause(self, c: CommandView) -> (DaemonView, StepView) {
        match c {
            CommandView::Select(serial) => self.selecting(serial),
            CommandView::Enable(enabled) => self.enabling(enabled),
            CommandView::Disconnect => self.keeping(
                ConfigView { serial: Seq::empty(), identity: Seq::empty(), ..self.config },
                "Disconnected; no phone selected"@,
            ),
            _ => self.done(),
        }
    }

    /// The phone with a serial told its identity.
    pub open spec fn identified(
        self,
        serial: Seq<char>,
        output: Result<Vec<u8>, &'static str>,
    ) -> (DaemonView, StepView) {
        match output {
            Err(e) => self.failed(e@),
            Ok(b) => match adb::identity_in(b@) {
                Err(e) => self.failed(e),
                Ok(identity) => self.keeping(
                    ConfigView { serial, identity, ..self.config },
                    "Phone selected. Enable sync to share future copies"@,
                ),
            },
        }
    }

    /// The last Wi-Fi action is put away.
    pub open spec fn reaching(
        self,
        pair: bool,
        address: Option<Seq<char>>,
        code: Seq<char>,
    ) -> (DaemonView, StepView) {
        match address {
            None => self.failed("Enter the phone address and port"@),
            Some(address) => if !adb::is_endpoint(address) {
                self.failed(adb::endpoint_error(address))
            } else {
                (
                    DaemonView {
                        action: if pair {
                            "Pairing…"@
                        } else {
                            "Connecting Wi-Fi…"@
                        },
                        phase: PhaseView::Idle,
                        ..self
                    },
                    StepView::StartAction {
                        pair,
                        call: if pair {
                            self.adb.pair_request(address, code, false)
                        } else {
                            self.adb.connect_request(address)
                        },
                    },
                )
            },
        }
    }

    /// Sharing goes on, or is to go on.
    pub open spec fn reconciled(self, now: u128) -> (DaemonView, StepView) {
        if !self.config.enabled {
            self.done()
        } else {
            let device = devices::chosen(self.devices, self.config.serial, self.config.identity);
            let key = match device {
                Some(d) => Some(d.key()),
                None => None,
            };
            if self.session is Some && key != self.session {
                (self.halted().at(PhaseView::Halt(device)), StepView::StopSession)
            } else {
                self.settled(device, now)
            }
        }
    }

    /// What is shown while no transport leads to the phone.
    pub open spec fn waiting_message(self) -> Seq<char> {
        match state_of(self.devices, self.config.serial) {
            Some(state) => if state == "unauthorized"@ || state == "authorizing"@ {
                "Unlock phone and accept USB debugging authorization"@
            } else if state == "offline"@ {
                "Phone offline; reconnect USB or Wi-Fi"@
            } else if state == "no permissions"@ {
                "USB permission denied; install android-udev and reconnect"@
            } else {
                self.other_message()
            },
            None => self.other_message(),
        }
    }

    /// What is shown while nothing is known of the remembered transport.
    pub open spec fn other_message(self) -> Seq<char> {
        match self.error {
            Some(e) => e,
            None => "Waiting for remembered phone over USB or paired Wi-Fi"@,
        }
    }

    /// This transport, if any, leads to the phone.
    pub open spec fn settled(self, device: Option<DeviceView>, now: u128) -> (
        DaemonView,
        StepView,
    ) {
        match device {
            None => DaemonView {
                state: "waiting"@,
                message: self.waiting_message(),
                ..self
            }.done(),
            Some(d) => if d.serial != self.config.serial {
                let config = ConfigView { serial: d.serial, ..self.config };
                (
                    DaemonView {
                        config,
                        retry: None,
                        delay: 1,
                        phase: PhaseView::Rename(d),
                        ..self
                    },
                    StepView::Save(config),
                )
            } else {
                self.launched(d, now)
            },
        }
    }

    /// A session on this transport begins, unless there is one or it is too soon.
    pub open spec fn launched(self, d: DeviceView, now: u128) -> (DaemonView, StepView) {
        if self.session is None && (self.retry matches Some(t) ==> t <= now) {
            (
                DaemonView {
                    retry: None,
                    state: "connecting"@,
                    message: "Starting clipboard-only server; preserving existing clipboards"@,
                    session: Some(d.key()),
                    phase: PhaseView::Idle,
                    ..self
                },
                StepView::StartSession { device: d, identity: self.config.identity },
            )
        } else {
            self.done()
        }
    }

    /// The clipboard is suspended after a session.
    pub open spec fn backed_off(self, e: Seq<char>, now: u128) -> (DaemonView, StepView) {
        DaemonView {
            message: e,
            delay: tracking::longer(self.delay),
            retry: Some((now + tracking::longer(self.delay) * SECOND) as u128),
            ..self
        }.done()
    }

    /// The state after the work that the daemon waited for, at the time `now`, and
    /// the work that is next. A reply for which it does not wait changes nothing.
    pub open spec fn next(self, reply: Reply, now: u128) -> (DaemonView, StepView) {
        match (self.phase, reply) {
            (PhaseView::Qr(c), Reply::Stopped { running }) => self.after_qr(c, running),
            (PhaseView::Session(c), Reply::Stopped { .. }) => self.paused(c),
            (PhaseView::Pause(c), Reply::Saved(r)) => match r {
                Err(e) => self.failed(e@),
                Ok(()) => self.after_pause(c),
            },
            (PhaseView::Identify(serial), Reply::Identified(output)) => self.identified(
                serial,
                output,
            ),
            (PhaseView::Keep, Reply::Saved(r)) => match r {
                Err(e) => self.failed(e@),
                Ok(()) => DaemonView { delay: 1, ..self }.done(),
            },
            (
                PhaseView::Action(CommandView::Reach { pair, address, code }),
                Reply::Stopped { .. },
            ) => self.reaching(pair, address, code),
            (PhaseView::Halt(device), Reply::Stopped { .. }) => self.settled(device, now),
            (PhaseView::Rename(d), Reply::Saved(r)) => match r {
                Err(e) => DaemonView { action: e@, ..self }.launched(d, now),
                Ok(()) => self.launched(d, now),
            },
            (PhaseView::Suspend(e), Reply::Stopped { .. }) => self.backed_off(e, now),
            _ => (self, StepView::Done),
        }
    }
}

// ---------------------------------------------------------------------------
// The daemon
// ---------------------------------------------------------------------------
/// How a session ended.
pub enum SessionEnd {
    /// It broke off.
    Broken,
    /// It came to an end.
    Finished(Result<(), &'static str>),
}

/// What is shown of a session that ended.
pub open spec fn end_message(end: SessionEnd) -> Seq<char> {
    match end {
        SessionEnd::Broken => "Clipboard session stopped; reconnect phone"@,
        SessionEnd::Finished(Err(e)) => e@,
        SessionEnd::Finished(Ok(())) => "Clipboard session ended; reconnecting"@,
    }
}

/// What is shown of a Wi-Fi action that ended.
pub open spec fn action_text(pair: bool, result: Result<(), &'static str>) -> Seq<char> {
    match result {
        Err(e) => e@,
        Ok(()) => if pair {
            "Paired. Use the separate connection port from Wireless debugging"@
        } else {
            "ADB connected. Select the intended phone from the list"@
        },
    }
}

/// Whether the helper of a Wi-Fi action did what it was to do.
pub fn action_result(pair: bool, output: Result<Vec<u8>, &'static str>) -> (r: Result<
    (),
    &'static str,
>)
    ensures
        match output {
            Err(e) => r == Err::<(), &'static str>(e),
            Ok(b) => if pair {
                match adb::paired_in(text::lossy(b@)) {
                    Ok(_) => r is Ok,
                    Err(e) => r matches Err(f) && f@ == e,
                }
            } else {
                &&& r is Ok <==> adb::is_connected_answer(b@)
                &&& r matches Err(f) ==> f@ == adb::not_connected()
            },
        },
{
    match output {
        Err(e) => Err(e),
        Ok(b) => if pair {
            match adb::pair_result(&b) {
                Ok(_) => Ok(()),
                Err(e) => Err(e),
            }
        } else {
            adb::connect_result(&b)
        },
    }
}

/// What is shown of a Wi-Fi action that ended.
pub fn action_message(pair: bool, result: Result<(), &'static str>) -> (r: &'static str)
    ensures
        r@ == action_text(pair, result),
{
    match result {
        Err(e) => e,
        Ok(()) => if pair {
            "Paired. Use the separate connection port from Wireless debugging"
        } else {
            "ADB connected. Select the intended phone from the list"
        },
    }
}

impl Daemon {
    /// The bridge with what was remembered.
    pub fn new(adb: Adb, config: Config) -> (r: Daemon)
        requires
            config@.inv(),
        ensures
            r@ == (DaemonView {
                adb: adb@,
                config: config@,
                devices: Seq::empty(),
                error: None,
                session: None,
                qr: pairing::StatusView {
                    image: Seq::empty(),
                    message: Seq::empty(),
                    active: false,
                },
                state: "paused"@,
                message: "Select one phone, then enable clipboard sync"@,
                action: Seq::empty(),
                retry: None,
                delay: 1,
                phase: PhaseView::Idle,
                last: None,
            }),
            r@.inv(),
    {
        let r = Daemon {
            adb,
            config,
            devices: Vec::new(),
            error: None,
            session: None,
            qr: pairing::Status::default(),
            state: "paused".to_owned(),
            message: "Select one phone, then enable clipboard sync".to_owned(),
            action: String::new(),
            retry: None,
            delay: 1,
            phase: Phase::Idle,
            last: None,
            start: Instant::now(),
        };
        assert(r@.devices =~= Seq::empty());
        assert(r@.action =~= Seq::empty());
        r
    }

    /// These transports are listed, or none can be.
    fn observe(&mut self, devices: Vec<Device>, error: Option<&'static str>)
        ensures
            final(self)@ == (DaemonView {
                devices: devices.deep_view(),
                error: match error {
                    Some(e) => Some(e@),
                    None => None,
                },
                ..old(self)@
            }),
    {
        self.devices = devices;
        self.error = error;
    }

    /// What the panel shows.
    pub fn status(&self) -> (r: Status)
        ensures
            r@ == self@.status(),
    {
        Status {
            state: self.state.clone(),
            message: self.message.clone(),
            action: self.action.clone(),
            selected: self.config.serial.clone(),
            enabled: self.config.enabled,
            devices: group(&self.devices, &self.config.serial),
            qr_image: self.qr.image.clone(),
            qr_active: self.qr.active,
        }
    }

    /// What the panel is to show, where that has changed.
    pub fn publish(&mut self) -> (r: Option<Status>)
        ensures
            final(self)@ == (DaemonView { last: Some(old(self)@.status()), ..old(self)@ }),
            match r {
                Some(s) => old(self)@.last != Some(old(self)@.status()) && s@
                    == old(self)@.status(),
                None => old(self)@.last == Some(old(self)@.status()),
            },
    {
        let status = self.status();
        let shown = match &self.last {
            Some(last) => same_status(last, &status),
            None => false,
        };
        if shown {
            return None;
        }
        self.last = Some(status.clone());
        Some(status)
    }

    fn done(&mut self) -> (r: Step)
        ensures
            (final(self)@, r@) == old(self)@.done(),
    {
        self.phase = Phase::Idle;
        Step::Done
    }

    fn fail(&mut self, e: &'static str) -> (r: Step)
        ensures
            (final(self)@, r@) == old(self)@.failed(e@),
    {
        self.action = e.to_owned();
        self.done()
    }

    fn halt(&mut self)
        ensures
            final(self)@ == old(self)@.halted(),
    {
        self.session = None;
        self.retry = None;
    }

    /// Takes a command of the panel, and says what work it asks for first.
    pub fn command(&mut self, json: &Json) -> (r: Step)
        requires
            old(self)@.inv(),
            old(self)@.phase is Idle,
        ensures
            (final(self)@, r@) == old(self)@.begun(json@),
            final(self)@.inv(),
    {
        match json.command() {
            Err(e) => self.fail(e),
            Ok(Command::Refresh) => {
                self.retry = None;
                self.done()
            },
            Ok(c) => {
                self.qr = pairing::Status::default();
                self.phase = Phase::Qr(c);
                Step::StopQr
            },
        }
    }

    fn after_qr(&mut self, c: Command, running: bool) -> (r: Step)
        ensures
            (final(self)@, r@) == old(self)@.after_qr(c@, running),
    {
        match c {
            Command::Refresh => self.done(),
            Command::QrCancel => {
                self.action = "QR pairing closed".to_owned();
                self.done()
            },
            Command::QrStart => {
                if running {
                    return self.fail("Wait for the current Wi-Fi action to finish");
                }
                self.action = "Generating QR code…".to_owned();
                self.phase = Phase::Idle;
                Step::StartQr
            },
            Command::Reach { pair, address, code } => {
                if running {
                    return self.fail("Wait for the current Wi-Fi action to finish");
                }
                self.phase = Phase::Action(Command::Reach { pair, address, code });
                Step::StopAction
            },
            other => {
                self.config.enabled = false;
                self.halt();
                self.phase = Phase::Session(other);
                Step::StopSession
            },
        }
    }

    fn paused(&mut self, c: Command) -> (r: Step)
        ensures
            (final(self)@, r@) == old(self)@.paused(c@),
    {
        self.state = "paused".to_owned();
        self.message = "Paused; no clipboard changes are being shared".to_owned();
        self.phase = Phase::Pause(c);
        Step::Save(self.config.clone())
    }

    fn keep(&mut self, config: Config, message: &str) -> (r: Step)
        ensures
            (final(self)@, r@) == old(self)@.keeping(config@, message@),
    {
        self.config = config;
        self.message = message.to_owned();
        self.phase = Phase::Keep;
        Step::Save(self.config.clone())
    }

    fn select(&mut self, serial: Option<String>) -> (r: Step)
        ensures
            (final(self)@, r@) == old(self)@.selecting(serial.deep_view()),
    {
        let serial = match serial {
            Some(s) => s,
            None => {
                return self.fail("Select a ready phone from the list");
            },
        };
        match find_serial(&self.devices, &serial) {
            None => self.fail("Select a ready, authorized phone from the list"),
            Some(i) => {
                assert(self@.devices[i as int] == self.devices@[i as int]@);
                match self.adb.identity(&self.devices[i].id) {
                    Err(e) => self.fail(e),
                    Ok(call) => {
                        self.phase = Phase::Identify(self.devices[i].serial.clone());
                        Step::Identify(call)
                    },
                }
            },
        }
    }

    fn enable(&mut self, enabled: Option<bool>) -> (r: Step)
        ensures
            (final(self)@, r@) == old(self)@.enabling(enabled),
    {
        let enabled = match enabled {
            Some(b) => b,
            None => {
                return self.fail("enabled must be true or false");
            },
        };
        if enabled && (self.config.serial.as_str().is_empty()
            || self.config.identity.as_str().is_empty()) {
            return self.fail("Select a phone before enabling clipboard sync");
        }
        let mut config = self.config.clone();
        config.enabled = enabled;
        if enabled {
            self.keep(config, "Connecting; existing clipboards are preserved")
        } else {
            self.keep(config, "Paused; copies made while paused will not be replayed")
        }
    }

    fn after_pause(&mut self, c: Command) -> (r: Step)
        ensures
            (final(self)@, r@) == old(self)@.after_pause(c@),
    {
        match c {
            Command::Select(serial) => self.select(serial),
            Command::Enable(enabled) => self.enable(enabled),
            Command::Disconnect => {
                let config = Config {
                    serial: String::new(),
                    identity: String::new(),
                    enabled: self.config.enabled,
                };
                assert(config@.serial =~= Seq::empty());
                assert(config@.identity =~= Seq::empty());
                self.keep(config, "Disconnected; no phone selected")
            },
            _ => self.done(),
        }
    }

    fn identified(&mut self, serial: String, output: Result<Vec<u8>, &'static str>) -> (r: Step)
        ensures
            (final(self)@, r@) == old(self)@.identified(serial@, output),
    {
        match output {
            Err(e) => self.fail(e),
            Ok(b) => match adb::identity_of(&b) {
                Err(e) => self.fail(e),
                Ok(identity) => {
                    let config = Config { serial, identity, enabled: self.config.enabled };
                    self.keep(config, "Phone selected. Enable sync to share future copies")
                },
            },
        }
    }

    fn reach(&mut self, pair: bool, address: Option<String>, code: String) -> (r: Step)
        ensures
            (final(self)@, r@) == old(self)@.reaching(pair, address.deep_view(), code@),
    {
        let address = match address {
            Some(a) => a,
            None => {
                return self.fail("Enter the phone address and port");
            },
        };
        match endpoint(&address) {
            Err(e) => self.fail(e),
            Ok(_) => {
                let call = if pair {
                    self.action = "Pairing…".to_owned();
                    self.adb.pair(&address, &code, false)
                } else {
                    self.action = "Connecting Wi-Fi…".to_owned();
                    self.adb.connect(&address)
                };
                self.phase = Phase::Idle;
                Step::StartAction { pair, call }
            },
        }
    }

    fn state_of(&self, serial: &str) -> (r: Option<&str>)
        ensures
            match r {
                Some(s) => state_of(self@.devices, serial@) == Some(s@),
                None => state_of(self@.devices, serial@) is None,
            },
    {
        let ghost all = self@.devices;
        let ghost f = with_serial(serial@);
        let mut i: usize = 0;
        while i < self.devices.len()
            invariant
                i <= self.devices@.len(),
                all == self.devices.deep_view(),
                all == self@.devices,
                f == with_serial(serial@),
                forall|j: int| 0 <= j < i ==> !f(#[trigger] all[j]),
            decreases self.devices@.len() - i,
        {
            assert(all[i as int] == self.devices@[i as int]@);
            if text::same(&self.devices[i].serial, serial) {
                proof {
                    lists::lemma_is_first(all, f, i as int);
                }
                return Some(self.devices[i].state.as_str());
            }
            i += 1;
        }
        proof {
            lists::lemma_none_is_first(all, f);
        }
        None
    }

    fn other_message(&self) -> (r: &'static str)
        ensures
            r@ == self@.other_message(),
    {
        match self.error {
            Some(e) => e,
            None => "Waiting for remembered phone over USB or paired Wi-Fi",
        }
    }

    fn waiting_message(&self) -> (r: &'static str)
        ensures
            r@ == self@.waiting_message(),
    {
        match self.state_of(&self.config.serial) {
            Some(state) => if text::same(state, "unauthorized") || text::same(
                state,
                "authorizing",
            ) {
                "Unlock phone and accept USB debugging authorization"
            } else if text::same(state, "offline") {
                "Phone offline; reconnect USB or Wi-Fi"
            } else if text::same(state, "no permissions") {
                "USB permission denied; install android-udev and reconnect"
            } else {
                self.other_message()
            },
            None => self.other_message(),
        }
    }

    fn settle(&mut self, device: Option<Device>, now: u128) -> (r: Step)
        ensures
            (final(self)@, r@) == old(self)@.settled(device.deep_view(), now),
    {
        match device {
            None => {
                let message = self.waiting_message();
                self.state = "waiting".to_owned();
                self.message = message.to_owned();
                self.done()
            },
            Some(d) => {
                if !text::same(&d.serial, &self.config.serial) {
                    self.config.serial = d.serial.clone();
                    self.retry = None;
                    self.delay = 1;
                    self.phase = Phase::Rename(d);
                    Step::Save(self.config.clone())
                } else {
                    self.launch(d, now)
                }
            },
        }
    }

    fn launch(&mut self, d: Device, now: u128) -> (r: Step)
        ensures
            (final(self)@, r@) == old(self)@.launched(d@, now),
    {
        let due = match self.retry {
            Some(t) => t <= now,
            None => true,
        };
        if self.session.is_none() && due {
            self.retry = None;
            self.state = "connecting".to_owned();
            self.message =
            "Starting clipboard-only server; preserving existing clipboards".to_owned();
            self.session = Some((d.serial.clone(), d.id.clone()));
            self.phase = Phase::Idle;
            Step::StartSession { device: d, identity: self.config.identity.clone() }
        } else {
            self.done()
        }
    }

    fn back_off(&mut self, e: &'static str, now: u128) -> (r: Step)
        requires
            old(self)@.inv(),
            now <= MAX_SPAN,
        ensures
            (final(self)@, r@) == old(self)@.backed_off(e@, now),
    {
        self.message = e.to_owned();
        self.delay = if 2 * self.delay > MAX_DELAY {
            MAX_DELAY
        } else {
            2 * self.delay
        };
        self.retry = Some(now + self.delay as u128 * SECOND);
        self.done()
    }

    /// Brings what runs in line with what is selected and listed at the time `now`,
    /// and says what work that asks for first.
    pub fn reconcile(&mut self, now: u128) -> (r: Step)
        requires
            old(self)@.inv(),
            old(self)@.phase is Idle,
        ensures
            (final(self)@, r@) == old(self)@.reconciled(now),
            final(self)@.inv(),
    {
        if !self.config.enabled {
            return self.done();
        }
        let device = choose_transport(&self.devices, &self.config.serial, &self.config.identity);
        let same = match (&device, &self.session) {
            (Some(d), Some((serial, id))) => text::same(&d.serial, serial) && text::same(
                &d.id,
                id,
            ),
            (None, Some(_)) => false,
            (_, None) => true,
        };
        if !same {
            self.halt();
            self.phase = Phase::Halt(device);
            return Step::StopSession;
        }
        self.settle(device, now)
    }

    /// Goes on after the work that the daemon waited for, at the time `now`, and says
    /// what work is next.
    pub fn proceed(&mut self, reply: Reply, now: u128) -> (r: Step)
        requires
            old(self)@.inv(),
            now <= MAX_SPAN,
        ensures
            (final(self)@, r@) == old(self)@.next(reply, now),
            final(self)@.inv(),
    {
        let mut phase = Phase::Idle;
        std::mem::swap(&mut phase, &mut self.phase);
        match (phase, reply) {
            (Phase::Qr(c), Reply::Stopped { running }) => self.after_qr(c, running),
            (Phase::Session(c), Reply::Stopped { .. }) => self.paused(c),
            (Phase::Pause(c), Reply::Saved(r)) => match r {
                Err(e) => self.fail(e),
                Ok(()) => self.after_pause(c),
            },
            (Phase::Identify(serial), Reply::Identified(output)) => self.identified(serial, output),
            (Phase::Keep, Reply::Saved(r)) => match r {
                Err(e) => self.fail(e),
                Ok(()) => {
                    self.delay = 1;
                    self.done()
                },
            },
            (
                Phase::Action(Command::Reach { pair, address, code }),
                Reply::Stopped { .. },
            ) => self.reach(pair, address, code),
            (Phase::Halt(device), Reply::Stopped { .. }) => self.settle(device, now),
            (Phase::Rename(d), Reply::Saved(r)) => {
                match r {
                    Err(e) => {
                        self.action = e.to_owned();
                    },
                    Ok(()) => {},
                }
                self.launch(d, now)
            },
            (Phase::Suspend(e), Reply::Stopped { .. }) => self.back_off(e, now),
            (other, _) => {
                self.phase = other;
                Step::Done
            },
        }
    }

    /// The time since the bridge began, in nanoseconds.
    pub fn now(&self) -> (r: u128)
        ensures
            r <= MAX_SPAN,
    {
        nanos_since(&self.start)
    }

    /// A command cannot be taken.
    fn refuse(&mut self, e: &'static str)
        ensures
            final(self)@ == (DaemonView { action: e@, ..old(self)@ }),
    {
        self.action = e.to_owned();
    }

    /// The session shares the clipboard, or does not yet.
    fn ready(&mut self, ready: bool)
        requires
            old(self)@.inv(),
        ensures
            final(self)@ == if ready {
                DaemonView {
                    state: "syncing"@,
                    message: "Sharing new plain-text copies"@,
                    delay: 1,
                    ..old(self)@
                }
            } else {
                old(self)@
            },
            final(self)@.inv(),
    {
        if ready {
            self.state = "syncing".to_owned();
            self.message = "Sharing new plain-text copies".to_owned();
            self.delay = 1;
        }
    }

    /// The QR attempt shows something else.
    fn qr_changed(&mut self, status: pairing::Status)
        ensures
            final(self)@ == (DaemonView {
                qr: status@,
                action: status@.message,
                ..old(self)@
            }),
    {
        self.action = status.message.clone();
        self.qr = status;
    }

    /// The Wi-Fi action ended.
    fn action_ended(&mut self, message: &str)
        ensures
            final(self)@ == (DaemonView { action: message@, ..old(self)@ }),
    {
        self.action = message.to_owned();
    }

    /// The session ended.
    fn session_ended(&mut self, end: SessionEnd) -> (r: Step)
        requires
            old(self)@.inv(),
            old(self)@.phase is Idle,
        ensures
            final(self)@ == (DaemonView {
                session: None,
                state: "waiting"@,
                phase: PhaseView::Suspend(end_message(end)),
                ..old(self)@
            }),
            r@ is Suspend,
            final(self)@.inv(),
    {
        self.session = None;
        self.state = "waiting".to_owned();
        self.phase =
        Phase::Suspend(
            match end {
                SessionEnd::Broken => "Clipboard session stopped; reconnect phone",
                SessionEnd::Finished(Err(e)) => e,
                SessionEnd::Finished(Ok(())) => "Clipboard session ended; reconnecting",
            },
        );
        Step::Suspend
    }

    /// How long no session may begin, in nanoseconds, if a session is to be retried.
    pub fn patience(&self) -> (r: Option<u128>)
        ensures
            exists|now: u128| now <= MAX_SPAN && r == #[trigger] clock::left(self@.retry, now),
    {
        let now: u128 = self.now();
        time_left(self.retry, now)
    }

    /// A session may begin again.
    fn retry_due(&mut self)
        ensures
            final(self)@ == (DaemonView { retry: None, ..old(self)@ }),
    {
        self.retry = None;
    }
}

// ---------------------------------------------------------------------------
// Everything that happens
// ---------------------------------------------------------------------------
/// What happened.
pub enum Event {
    /// These transports are listed, or none can be.
    Listed { devices: Vec<Device>, error: Option<&'static str> },
    /// All is noted: bring what runs in line with it.
    Settle,
    /// The work that the daemon asked for is done.
    Worked(Reply),
    /// The panel sent a command, or something that is none.
    Command(Result<Json, &'static str>),
    /// The session shares the clipboard, or does not yet.
    Ready(bool),
    /// The QR attempt shows something else.
    Qr(pairing::Status),
    /// The Wi-Fi action ended with this message.
    Action(String),
    /// The session ended.
    Ended(SessionEnd),
    /// The pause between sessions is over.
    Due,
}

impl DaemonView {
    /// The state after an event at the time `now`, and the work that is next.
    pub open spec fn step(self, event: Event, now: u128) -> (DaemonView, StepView) {
        match event {
            Event::Listed { devices, error } => (
                DaemonView {
                    devices: devices.deep_view(),
                    error: match error {
                        Some(e) => Some(e@),
                        None => None,
                    },
                    ..self
                },
                StepView::Done,
            ),
            Event::Settle => self.reconciled(now),
            Event::Worked(reply) => self.next(reply, now),
            Event::Command(Ok(json)) => self.begun(json@),
            Event::Command(Err(e)) => (DaemonView { action: e@, ..self }, StepView::Done),
            Event::Ready(ready) => (
                if ready {
                    DaemonView {
                        state: "syncing"@,
                        message: "Sharing new plain-text copies"@,
                        delay: 1,
                        ..self
                    }
                } else {
                    self
                },
                StepView::Done,
            ),
            Event::Qr(status) => (
                DaemonView { qr: status@, action: status@.message, ..self },
                StepView::Done,
            ),
            Event::Action(message) => (DaemonView { action: message@, ..self }, StepView::Done),
            Event::Ended(end) => (
                DaemonView {
                    session: None,
                    state: "waiting"@,
                    phase: PhaseView::Suspend(end_message(end)),
                    ..self
                },
                StepView::Suspend,
            ),
            Event::Due => (DaemonView { retry: None, ..self }, StepView::Done),
        }
    }
}

impl Event {
    /// Whether the daemon takes the event only while it waits for no work.
    pub open spec fn waits_for_work(self) -> bool {
        match self {
            Event::Settle => true,
            Event::Command(Ok(_)) => true,
            Event::Ended(_) => true,
            _ => false,
        }
    }
}

impl Daemon {
    /// Takes what happened at the time `now`, and says what work is next.
    pub fn run_at(&mut self, event: Event, now: u128) -> (r: Step)
        requires
            old(self)@.inv(),
            event.waits_for_work() ==> old(self)@.phase is Idle,
            now <= MAX_SPAN,
        ensures
            (final(self)@, r@) == old(self)@.step(event, now),
            final(self)@.inv(),
    {
        match event {
            Event::Listed { devices, error } => {
                self.observe(devices, error);
                Step::Done
            },
            Event::Settle => self.reconcile(now),
            Event::Worked(reply) => self.proceed(reply, now),
            Event::Command(Ok(json)) => self.command(&json),
            Event::Command(Err(e)) => {
                self.refuse(e);
                Step::Done
            },
            Event::Ready(ready) => {
                self.ready(ready);
                Step::Done
            },
            Event::Qr(status) => {
                self.qr_changed(status);
                Step::Done
            },
            Event::Action(message) => {
                self.action_ended(&message);
                Step::Done
            },
            Event::Ended(end) => self.session_ended(end),
            Event::Due => {
                self.retry_due();
                Step::Done
            },
        }
    }

    /// Takes what happened, and says what work is next.
    pub fn run(&mut self, event: Event) -> (r: Step)
        requires
            old(self)@.inv(),
            event.waits_for_work() ==> old(self)@.phase is Idle,
        ensures
            exists|now: u128|
                now <= MAX_SPAN && (final(self)@, r@) == #[trigger] old(self)@.step(event, now),
            final(self)@.inv(),
    {
        let now: u128 = self.now();
        let ghost e = event;
        let r = self.run_at(event, now);
        assert((self@, r@) == old(self)@.step(e, now));
        r
    }
}

// ---------------------------------------------------------------------------
// Laws
// ---------------------------------------------------------------------------
/// Another phone is selected only while nothing is shared, and the selection alone
/// does not begin to share.
pub proof fn law_phone_changes_only_while_paused(d: DaemonView, reply: Reply, now: u128)
    requires
        d.inv(),
    ensures
        d.next(reply, now).0.config.identity != d.config.identity ==> {
            &&& d.session is None
            &&& !d.config.enabled
            &&& !d.next(reply, now).0.config.enabled
        },
{
}

/// Sharing begins only on the command to begin it, with a phone selected.
pub proof fn law_sharing_begins_only_on_command(d: DaemonView, reply: Reply, now: u128)
    ensures
        d.next(reply, now).0.config.enabled && !d.config.enabled ==> {
            &&& d.phase == PhaseView::Pause(CommandView::Enable(Some(true)))
            &&& d.config.is_selected()
        },
{
}

/// Commands that concern the selection stop the session and pause before they do
/// anything else: what they ask for in the end is stored only then.
pub proof fn law_selection_commands_pause_first(
    d: DaemonView,
    c: CommandView,
    running: bool,
    now: u128,
)
    requires
        c is Select || c is Enable || c is Disconnect,
        d.phase == PhaseView::Qr(c),
    ensures
        ({
            let (e, stop) = d.next(Reply::Stopped { running }, now);
            let (f, save) = e.next(Reply::Stopped { running }, now);
            &&& stop is StopSession
            &&& e.session is None && !e.config.enabled && e.retry is None
            &&& save == StepView::Save(ConfigView { enabled: false, ..d.config })
            &&& f.state == "paused"@ && f.phase == PhaseView::Pause(c)
        }),
{
}

/// Reconciling neither begins nor ends sharing, and keeps the selected phone.
pub proof fn law_reconciling_keeps_the_phone(d: DaemonView, now: u128)
    ensures
        d.reconciled(now).0.config.enabled == d.config.enabled,
        d.reconciled(now).0.config.identity == d.config.identity,
        !d.config.enabled ==> d.reconciled(now).1 is Done,
{
}

/// A session begins only while sharing is enabled and none runs, for the selected
/// identity, and on a transport whose serial is remembered from then on.
pub proof fn law_sessions_are_with_the_selected_phone(d: DaemonView, now: u128)
    ensures
        d.reconciled(now).1 matches StepView::StartSession { device, identity } ==> {
            &&& d.config.enabled
            &&& d.session is None
            &&& identity == d.config.identity
            &&& devices::chosen(d.devices, d.config.serial, d.config.identity) == Some(device)
            &&& device.serial == d.reconciled(now).0.config.serial
            &&& d.reconciled(now).0.session == Some(device.key())
        },
{
}

/// Whether a transport, if there is one, has a serial.
pub open spec fn is_named(device: Option<DeviceView>) -> bool {
    device matches Some(d) ==> d.serial.len() > 0
}

impl DaemonView {
    /// All transports that the daemon knows of have serials.
    pub open spec fn knows_named(self) -> bool {
        &&& forall|i: int|
            0 <= i < self.devices.len() ==> (#[trigger] self.devices[i]).serial.len() > 0
        &&& match self.phase {
            PhaseView::Halt(device) => is_named(device),
            PhaseView::Rename(d) => d.serial.len() > 0,
            PhaseView::Identify(serial) => serial.len() > 0,
            _ => true,
        }
    }
}

proof fn lemma_chosen_is_named(d: DaemonView)
    requires
        d.knows_named(),
    ensures
        is_named(devices::chosen(d.devices, d.config.serial, d.config.identity)),
{
    devices::law_chosen_transport_leads_to_the_phone(
        d.devices,
        d.config.serial,
        d.config.identity,
    );
    if let Some(c) = devices::chosen(d.devices, d.config.serial, d.config.identity) {
        let i = choose|i: int| 0 <= i < d.devices.len() && d.devices[i] == c;
        assert(d.devices[i].serial.len() > 0);
    }
}

/// The clipboard is shared only with a phone whose serial and identity are known,
/// whatever happens.
pub proof fn law_shared_phone_is_selected(d: DaemonView, event: Event, now: u128)
    requires
        d.inv(),
        d.config.inv(),
        d.knows_named(),
        event matches Event::Listed { devices, .. } ==> forall|i: int|
            0 <= i < devices.deep_view().len() ==> (#[trigger] devices.deep_view()[i]).serial.len()
                > 0,
    ensures
        d.step(event, now).0.config.inv(),
        d.step(event, now).0.knows_named(),
{
    lemma_chosen_is_named(d);
    if let PhaseView::Pause(CommandView::Select(Some(serial))) = d.phase {
        let f = devices::ready_serial(serial);
        lists::lemma_first_where(d.devices, f);
        if let Some(i) = lists::first_where(d.devices, f) {
            assert(d.devices[i].serial.len() > 0);
        }
    }
    if let (PhaseView::Identify(_), Event::Worked(Reply::Identified(Ok(b)))) = (d.phase, event) {
        if let Ok(identity) = adb::identity_in(b@) {
            assert(adb::is_identity(identity));
        }
    }
}

/// Whatever changes the selection, or whether it is shared, is stored at once, but
/// for the pause before a command, which is stored when the session is stopped.
pub proof fn law_choices_are_stored(d: DaemonView, event: Event, now: u128)
    ensures
        d.step(event, now).0.config != d.config ==> {
            ||| d.step(event, now).1 == StepView::Save(d.step(event, now).0.config)
            ||| d.step(event, now).1 is StopSession && d.step(event, now).0.phase is Session && d
                .step(event, now).0.config == (ConfigView { enabled: false, ..d.config })
        },
{
}

/// Sharing that is enabled goes on by itself as soon as a transport leads to the
/// phone and the pause is over.
pub proof fn law_sharing_resumes(d: DaemonView, saved: Result<(), &'static str>, now: u128)
    requires
        d.config.enabled,
        d.session is None,
        d.retry matches Some(t) ==> t <= now,
        devices::chosen(d.devices, d.config.serial, d.config.identity) is Some,
    ensures
        ({
            let device = devices::chosen(d.devices, d.config.serial, d.config.identity)->0;
            let (e, step) = d.step(Event::Settle, now);
            let begin = StepView::StartSession { device, identity: d.config.identity };
            ||| step == begin
            ||| step is Save && e.step(Event::Worked(Reply::Saved(saved)), now).1 == begin
        }),
{
}

/// A line that is no command changes nothing but what is shown of the last action.
pub proof fn law_bad_commands_change_nothing(d: DaemonView, json: JsonView)
    requires
        d.phase is Idle,
        command::command_in(json) is Err,
    ensures
        d.begun(json).1 is Done,
        d.begun(json).0 == (DaemonView { action: d.begun(json).0.action, ..d }),
{
}

/// After a session that ended, the next one waits, longer each time but never more
/// than a quarter of a minute.
pub proof fn law_sessions_back_off(d: DaemonView, e: Seq<char>, now: u128)
    requires
        d.inv(),
        now <= MAX_SPAN,
    ensures
        ({
            let t = d.backed_off(e, now).0;
            &&& t.delay <= MAX_DELAY
            &&& t.delay > d.delay || t.delay == MAX_DELAY
            &&& t.retry matches Some(at) && at == now + t.delay * SECOND && at <= now + 15 * SECOND
        }),
{
}

/// The panel shows the state as it is: the selected phone and whether it is shared,
/// the phones in rows, and what the QR attempt shows.
pub proof fn law_panel_shows_the_state(d: DaemonView)
    ensures
        ({
            let s = d.status();
            &&& s.state == d.state && s.message == d.message && s.action == d.action
            &&& s.selected == d.config.serial && s.enabled == d.config.enabled
            &&& s.devices == devices::grouped(d.devices, d.config.serial)
            &&& s.qr_image == d.qr.image && s.qr_active == d.qr.active
        }),
{
}

/// A command other than `refresh` first stops the QR attempt, which is then not shown
/// any more; `refresh` only lets the next session begin at once.
pub proof fn law_commands_stop_the_qr_attempt(d: DaemonView, json: JsonView)
    ensures
        match command::command_in(json) {
            Ok(CommandView::Refresh) => d.begun(json) == (
                DaemonView { retry: None, phase: PhaseView::Idle, ..d },
                StepView::Done,
            ),
            Ok(c) => d.begun(json).1 is StopQr && d.begun(json).0 == (DaemonView {
                qr: pairing::StatusView {
                    image: Seq::empty(),
                    message: Seq::empty(),
                    active: false,
                },
                phase: PhaseView::Qr(c),
                ..d
            }),
            Err(e) => d.begun(json) == (
                DaemonView { action: e, phase: PhaseView::Idle, ..d },
                StepView::Done,
            ),
        },
{
}

/// A phone is selected by the serial of a ready transport, which is asked for the
/// phone's identity. Both are stored together, nothing is shared, and the next pause is
/// short again. Where the phone cannot be asked, or what is to be stored cannot be, it
/// is said why.
pub proof fn law_phones_are_selected(
    d: DaemonView,
    serial: Seq<char>,
    output: Vec<u8>,
    e: &'static str,
    now: u128,
)
    requires
        d.phase == PhaseView::Pause(CommandView::Select(Some(serial))),
    ensures
        ({
            let ready = |t: DeviceView| t.serial == serial && t.state == "device"@;
            let (f, ask) = d.next(Reply::Saved(Ok(())), now);
            match lists::first_where(d.devices, ready) {
                None => (f, ask) == (
                    DaemonView {
                        action: "Select a ready, authorized phone from the list"@,
                        phase: PhaseView::Idle,
                        ..d
                    },
                    StepView::Done,
                ),
                Some(i) => if !adb::is_transport_id(d.devices[i].id) {
                    ask is Done && f == (DaemonView {
                        action: "ADB omitted transport IDs; update platform-tools"@,
                        phase: PhaseView::Idle,
                        ..d
                    })
                } else {
                    &&& ask == StepView::Identify(
                        CallView {
                            program: d.adb.path,
                            args: seq![
                                "-t"@,
                                d.devices[i].id,
                                "shell"@,
                                "getprop"@,
                                "ro.serialno"@,
                            ],
                            input: None,
                            limit: 65536,
                            seconds: 3,
                        },
                    )
                    &&& f == (DaemonView { phase: PhaseView::Identify(serial), ..d })
                    &&& f.next(Reply::Identified(Err(e)), now) == (
                        DaemonView { action: e@, phase: PhaseView::Idle, ..d },
                        StepView::Done,
                    )
                    &&& match adb::identity_in(output@) {
                        Err(x) => f.next(Reply::Identified(Ok(output)), now) == (
                            DaemonView { action: x, phase: PhaseView::Idle, ..d },
                            StepView::Done,
                        ),
                        Ok(identity) => {
                            let (g, save) = f.next(Reply::Identified(Ok(output)), now);
                            let config = ConfigView {
                                serial,
                                identity,
                                enabled: d.config.enabled,
                            };
                            &&& save == StepView::Save(config)
                            &&& g.config == config
                            &&& g.next(Reply::Saved(Ok(())), now) == (
                                DaemonView {
                                    config,
                                    message: "Phone selected. Enable sync to share future copies"@,
                                    delay: 1,
                                    phase: PhaseView::Idle,
                                    ..d
                                },
                                StepView::Done,
                            )
                            &&& g.next(Reply::Saved(Err(e)), now).0.action == e@
                            &&& g.next(Reply::Saved(Err(e)), now).1 is Done
                        },
                    }
                },
            }
        }),
{
    let ready = |t: DeviceView| t.serial == serial && t.state == "device"@;
    assert(devices::ready_serial(serial) =~= ready);
    lists::lemma_first_where(d.devices, ready);
    if let Some(i) = lists::first_where(d.devices, ready) {
        assert(adb::on_transport(
            d.devices[i].id,
            seq!["shell"@, "getprop"@, "ro.serialno"@],
        ) =~= seq!["-t"@, d.devices[i].id, "shell"@, "getprop"@, "ro.serialno"@]);
    }
}

/// Sharing is switched on and off as the command says, and stored; it can be switched
/// on only with a phone selected. To disconnect is to forget the phone, and stored too.
/// A command that does not say what it needs fails.
pub proof fn law_sharing_is_switched(
    d: DaemonView,
    enabled: bool,
    e: &'static str,
    now: u128,
)
    ensures
        d.phase == PhaseView::Pause(CommandView::Enable(Some(enabled))) ==> {
            let (f, save) = d.next(Reply::Saved(Ok(())), now);
            if enabled && (d.config.serial.len() == 0 || d.config.identity.len() == 0) {
                save is Done && f == (DaemonView {
                    action: "Select a phone before enabling clipboard sync"@,
                    phase: PhaseView::Idle,
                    ..d
                })
            } else {
                let config = ConfigView { enabled, ..d.config };
                &&& save == StepView::Save(config)
                &&& f.next(Reply::Saved(Ok(())), now) == (
                    DaemonView {
                        config,
                        message: if enabled {
                            "Connecting; existing clipboards are preserved"@
                        } else {
                            "Paused; copies made while paused will not be replayed"@
                        },
                        delay: 1,
                        phase: PhaseView::Idle,
                        ..d
                    },
                    StepView::Done,
                )
            }
        },
        d.phase == PhaseView::Pause(CommandView::Enable(None)) ==> d.next(
            Reply::Saved(Ok(())),
            now,
        ) == (
            DaemonView {
                action: "enabled must be true or false"@,
                phase: PhaseView::Idle,
                ..d
            },
            StepView::Done,
        ),
        d.phase == PhaseView::Pause(CommandView::Select(None)) ==> d.next(
            Reply::Saved(Ok(())),
            now,
        ) == (
            DaemonView {
                action: "Select a ready phone from the list"@,
                phase: PhaseView::Idle,
                ..d
            },
            StepView::Done,
        ),
        d.phase == PhaseView::Pause(CommandView::Disconnect) ==> {
            let (f, save) = d.next(Reply::Saved(Ok(())), now);
            let config = ConfigView {
                serial: Seq::empty(),
                identity: Seq::empty(),
                enabled: d.config.enabled,
            };
            &&& save == StepView::Save(config)
            &&& f.next(Reply::Saved(Ok(())), now) == (
                DaemonView {
                    config,
                    message: "Disconnected; no phone selected"@,
                    delay: 1,
                    phase: PhaseView::Idle,
                    ..d
                },
                StepView::Done,
            )
        },
        d.phase is Pause || d.phase is Keep ==> d.next(Reply::Saved(Err(e)), now) == (
            DaemonView { action: e@, phase: PhaseView::Idle, ..d },
            StepView::Done,
        ),
{
}

/// A command of the selection pauses at once: sharing is off, the session is stopped
/// and forgotten, and the panel says so, before the pause is stored.
pub proof fn law_selection_commands_pause_at_once(
    d: DaemonView,
    c: CommandView,
    running: bool,
    now: u128,
)
    requires
        c is Select || c is Enable || c is Disconnect,
    ensures
        d.phase == PhaseView::Qr(c) ==> d.next(Reply::Stopped { running }, now) == (
            DaemonView {
                config: ConfigView { enabled: false, ..d.config },
                session: None,
                retry: None,
                phase: PhaseView::Session(c),
                ..d
            },
            StepView::StopSession,
        ),
        d.phase == PhaseView::Session(c) ==> d.next(Reply::Stopped { running }, now) == (
            DaemonView {
                state: "paused"@,
                message: "Paused; no clipboard changes are being shared"@,
                phase: PhaseView::Pause(c),
                ..d
            },
            StepView::Save(d.config),
        ),
{
}

/// A QR attempt is begun, and so is a Wi-Fi action, only while no Wi-Fi action goes on;
/// an action needs an endpoint, and runs the helper that connects to it, or that pairs
/// with it by the typed code. Neither touches the selection or the session.
pub proof fn law_wifi_actions_are_begun(
    d: DaemonView,
    pair: bool,
    address: Option<Seq<char>>,
    code: Seq<char>,
    running: bool,
    now: u128,
)
    ensures
        d.phase == PhaseView::Qr(CommandView::QrCancel) ==> d.next(Reply::Stopped { running }, now)
            == (
            DaemonView { action: "QR pairing closed"@, phase: PhaseView::Idle, ..d },
            StepView::Done,
        ),
        d.phase == PhaseView::Qr(CommandView::QrStart) || d.phase == PhaseView::Qr(
            CommandView::Reach { pair, address, code },
        ) ==> d.next(Reply::Stopped { running: true }, now) == (
            DaemonView {
                action: "Wait for the current Wi-Fi action to finish"@,
                phase: PhaseView::Idle,
                ..d
            },
            StepView::Done,
        ),
        d.phase == PhaseView::Qr(CommandView::QrStart) ==> d.next(
            Reply::Stopped { running: false },
            now,
        ) == (
            DaemonView { action: "Generating QR code…"@, phase: PhaseView::Idle, ..d },
            StepView::StartQr,
        ),
        d.phase == PhaseView::Qr(CommandView::Reach { pair, address, code }) ==> d.next(
            Reply::Stopped { running: false },
            now,
        ) == (
            DaemonView {
                phase: PhaseView::Action(CommandView::Reach { pair, address, code }),
                ..d
            },
            StepView::StopAction,
        ),
        d.phase == PhaseView::Action(CommandView::Reach { pair, address, code }) ==> d.next(
            Reply::Stopped { running },
            now,
        ) == match address {
            None => (
                DaemonView {
                    action: "Enter the phone address and port"@,
                    phase: PhaseView::Idle,
                    ..d
                },
                StepView::Done,
            ),
            Some(a) => if !adb::is_endpoint(a) {
                (
                    DaemonView {
                        action: adb::endpoint_error(a),
                        phase: PhaseView::Idle,
                        ..d
                    },
                    StepView::Done,
                )
            } else if pair {
                (
                    DaemonView { action: "Pairing…"@, phase: PhaseView::Idle, ..d },
                    StepView::StartAction { pair, call: d.adb.pair_request(a, code, false) },
                )
            } else {
                (
                    DaemonView { action: "Connecting Wi-Fi…"@, phase: PhaseView::Idle, ..d },
                    StepView::StartAction { pair, call: d.adb.connect_request(a) },
                )
            },
        },
{
}

/// Where nothing is shared, nothing is brought in line. Where something is, a session
/// on a transport that does not lead to the phone any more is stopped; one that does is
/// left alone.
pub proof fn law_sessions_follow_the_phone(d: DaemonView, now: u128)
    requires
        d.phase is Idle,
    ensures
        !d.config.enabled ==> d.reconciled(now) == (d, StepView::Done),
        d.config.enabled ==> {
            let c = devices::chosen(d.devices, d.config.serial, d.config.identity);
            let same = match (c, d.session) {
                (Some(t), Some(k)) => t.serial == k.0 && t.id == k.1,
                (None, None) => true,
                _ => false,
            };
            &&& d.session is Some && !same ==> d.reconciled(now) == (
                DaemonView {
                    session: None,
                    retry: None,
                    phase: PhaseView::Halt(c),
                    ..d
                },
                StepView::StopSession,
            )
            &&& d.session is Some && same && (c matches Some(t) && t.serial == d.config.serial)
                ==> d.reconciled(now) == (d, StepView::Done)
        },
{
}

/// Once no session is in the way: while no transport leads to the phone it is waited
/// for, and the panel says what can be done; a transport with another serial is
/// remembered first; and then a session begins on it, unless it is too soon, whether or
/// not the serial could be stored.
pub proof fn law_sessions_begin_on_the_chosen_transport(
    d: DaemonView,
    device: Option<DeviceView>,
    running: bool,
    saved: Result<(), &'static str>,
    now: u128,
)
    requires
        d.phase == PhaseView::Halt(device),
        d.session is None,
    ensures
        ({
            let (f, step) = d.next(Reply::Stopped { running }, now);
            match device {
                None => step is Done && f.state == "waiting"@ && f == (DaemonView {
                    state: "waiting"@,
                    message: f.message,
                    phase: PhaseView::Idle,
                    ..d
                }),
                Some(t) => {
                    let soon = d.retry matches Some(at) && at > now;
                    if t.serial == d.config.serial {
                        if soon {
                            (f, step) == (DaemonView { phase: PhaseView::Idle, ..d }, StepView::Done)
                        } else {
                            (f, step) == (
                                DaemonView {
                                    retry: None,
                                    state: "connecting"@,
                                    message:
                                        "Starting clipboard-only server; preserving existing clipboards"@,
                                    session: Some((t.serial, t.id)),
                                    phase: PhaseView::Idle,
                                    ..d
                                },
                                StepView::StartSession {
                                    device: t,
                                    identity: d.config.identity,
                                },
                            )
                        }
                    } else {
                        let config = ConfigView { serial: t.serial, ..d.config };
                        let (g, begin) = f.next(Reply::Saved(saved), now);
                        &&& step == StepView::Save(config)
                        &&& f.config == config && f.retry is None && f.delay == 1
                        &&& begin == (StepView::StartSession {
                            device: t,
                            identity: d.config.identity,
                        })
                        &&& g.session == Some((t.serial, t.id)) && g.config == config
                        &&& g.state == "connecting"@
                        &&& g.action == match saved {
                            Ok(()) => d.action,
                            Err(e) => e@,
                        }
                    }
                },
            }
        }),
        d.next(Reply::Stopped { running }, now) == d.settled(device, now),
        d.config.enabled ==> ({
            let c = devices::chosen(d.devices, d.config.serial, d.config.identity);
            d.reconciled(now) == d.settled(c, now)
        }),
{
}

/// While the phone is waited for, the panel says what its remembered transport needs,
/// else why none can be listed, else that it is waited for.
pub proof fn law_waiting_is_explained(d: DaemonView, now: u128)
    ensures
        ({
            let listed = |t: DeviceView| t.serial == d.config.serial;
            let other = match d.error {
                Some(e) => e,
                None => "Waiting for remembered phone over USB or paired Wi-Fi"@,
            };
            d.settled(None, now).0.message == match lists::first_where(d.devices, listed) {
                Some(i) => {
                    let state = d.devices[i].state;
                    if state == "unauthorized"@ || state == "authorizing"@ {
                        "Unlock phone and accept USB debugging authorization"@
                    } else if state == "offline"@ {
                        "Phone offline; reconnect USB or Wi-Fi"@
                    } else if state == "no permissions"@ {
                        "USB permission denied; install android-udev and reconnect"@
                    } else {
                        other
                    }
                },
                None => other,
            }
        }),
        d.settled(None, now).0.state == "waiting"@,
{
    let listed = |t: DeviceView| t.serial == d.config.serial;
    assert(with_serial(d.config.serial) =~= listed);
}

/// A session that ended is forgotten, the clipboard is suspended, and the panel shows
/// why it ended. The next one waits twice as long as the last, at most fifteen seconds.
pub proof fn law_ended_sessions_are_retried(
    d: DaemonView,
    e: &'static str,
    running: bool,
    now: u128,
)
    requires
        d.inv(),
        now <= MAX_SPAN,
    ensures
        ({
            let ends = SessionEnd::Finished(Err(e));
            let (f, step) = d.step(Event::Ended(ends), now);
            let (g, done) = f.step(Event::Worked(Reply::Stopped { running }), now);
            let delay: u64 = if 2 * d.delay < 15 {
                (2 * d.delay) as u64
            } else {
                15
            };
            &&& step is Suspend
            &&& f.session is None && f.state == "waiting"@ && f.config == d.config
            &&& done is Done
            &&& g == (DaemonView {
                session: None,
                state: "waiting"@,
                message: e@,
                delay,
                retry: Some((now + delay * 1_000_000_000) as u128),
                phase: PhaseView::Idle,
                ..d
            })
        }),
        end_message(SessionEnd::Broken) == "Clipboard session stopped; reconnect phone"@,
        end_message(SessionEnd::Finished(Ok(()))) == "Clipboard session ended; reconnecting"@,
        end_message(SessionEnd::Finished(Err(e))) == e@,
{
}

/// What else happens is noted and shown, and asks for no work: the listed transports, a
/// session that shares, after which the next pause is short again, what the QR attempt
/// shows, how a Wi-Fi action ended, a line that is no command, and the end of a pause.
pub proof fn law_other_events_are_noted(
    d: DaemonView,
    devices: Vec<Device>,
    error: Option<&'static str>,
    status: pairing::Status,
    message: String,
    e: &'static str,
    now: u128,
)
    ensures
        d.step(Event::Listed { devices, error }, now) == (
            DaemonView {
                devices: devices.deep_view(),
                error: match error {
                    Some(x) => Some(x@),
                    None => None,
                },
                ..d
            },
            StepView::Done,
        ),
        d.step(Event::Ready(true), now) == (
            DaemonView {
                state: "syncing"@,
                message: "Sharing new plain-text copies"@,
                delay: 1,
                ..d
            },
            StepView::Done,
        ),
        d.step(Event::Ready(false), now) == (d, StepView::Done),
        d.step(Event::Qr(status), now) == (
            DaemonView { qr: status@, action: status@.message, ..d },
            StepView::Done,
        ),
        d.step(Event::Action(message), now) == (DaemonView { action: message@, ..d }, StepView::Done),
        d.step(Event::Command(Err(e)), now) == (DaemonView { action: e@, ..d }, StepView::Done),
        d.step(Event::Due, now) == (DaemonView { retry: None, ..d }, StepView::Done),
        d.step(Event::Settle, now) == d.reconciled(now),
{
}

/// What a Wi-Fi action came to is shown: what to do next where it succeeded, else the
/// error.
pub proof fn law_wifi_actions_are_told(e: &'static str, pair: bool)
    ensures
        action_text(true, Ok(()))
            == "Paired. Use the separate connection port from Wireless debugging"@,
        action_text(false, Ok(())) == "ADB connected. Select the intended phone from the list"@,
        action_text(pair, Err(e)) == e@,
{
}

/// A reply that is not waited for changes nothing and asks for nothing.
pub proof fn law_other_replies_change_nothing(d: DaemonView, reply: Reply, now: u128)
    requires
        match d.phase {
            PhaseView::Idle => true,
            PhaseView::Pause(_) => !(reply is Saved),
            PhaseView::Keep => !(reply is Saved),
            PhaseView::Rename(_) => !(reply is Saved),
            PhaseView::Identify(_) => !(reply is Identified),
            _ => !(reply is Stopped),
        },
    ensures
        d.next(reply, now) == (d, StepView::Done),
{
}

} // verus!
