//! The clipboard server on the phone: how it is checked, started, reached and
//! removed.
use crate::adb::{self, Adb, AdbView, Process};
use crate::bytes;
use crate::devices::{Device, DeviceView};
use crate::process::{Call, CallView};
use crate::protocol::VERSION;
use crate::text;
use vstd::prelude::*;
use vstd::utf8::encode_utf8;

verus! {

// ---------------------------------------------------------------------------
// The installed server
// ---------------------------------------------------------------------------
/// Where the package of the mirror keeps its server. There is no other place.
pub fn server_path() -> (r: &'static str)
    ensures
        r@ == "/usr/share/scrcpy/scrcpy-server"@,
{
    "/usr/share/scrcpy/scrcpy-server"
}

/// Whether the mirror that prints `output` is the supported one.
pub open spec fn is_supported(output: Seq<char>) -> bool {
    let words = text::words_of(output);
    words.len() >= 2 && words[0] == "scrcpy"@ && words[1] == VERSION@
}

/// Whether the mirror that prints `output` is the supported one.
pub fn supported(output: &str) -> (r: bool)
    ensures
        r == is_supported(output@),
{
    let words = text::words(output);
    let ghost w = words.deep_view();
    if words.len() < 2 {
        assert(w.len() < 2);
        return false;
    }
    assert(w[0] == words@[0]@ && w[1] == words@[1]@);
    text::same(&words[0], "scrcpy") && text::same(&words[1], VERSION)
}

/// Whether the mirror that prints `output` is the supported one.
pub fn compatible_version(output: &[u8]) -> (r: bool)
    ensures
        r == is_supported(text::lossy(output@)),
{
    supported(&text::utf8_lossy(output))
}

/// What asks the installed mirror for its version.
pub fn version_call() -> (r: Call)
    ensures
        r@ == version_request(),
{
    let mut args: Vec<String> = Vec::new();
    args.push("--version".to_owned());
    assert(args.deep_view() =~= seq!["--version"@]);
    Call { program: "/usr/bin/scrcpy".to_owned(), args, input: None, limit: 8192, seconds: 5 }
}

/// What asks the installed mirror for its version.
pub open spec fn version_request() -> CallView {
    CallView {
        program: "/usr/bin/scrcpy"@,
        args: seq!["--version"@],
        input: None,
        limit: 8192,
        seconds: 5,
    }
}

/// What the file system tells of the installed server.
pub enum Archive {
    /// It cannot be opened.
    Missing,
    /// It cannot be inspected.
    Unknown,
    /// It is a regular file or not, of this length, and starts with these bytes
    /// where it has as many.
    Found { file: bool, len: u64, signature: Option<[u8; 4]> },
}

/// The longest server, in bytes.
pub const MAX_SERVER: u64 = 4194304;

/// What an archive starts with.
pub open spec fn zip_signature() -> Seq<u8> {
    seq![80u8, 75u8, 3u8, 4u8]
}

/// What is wrong with the installed server, if anything.
pub open spec fn archive_error(archive: Archive) -> Option<Seq<char>> {
    match archive {
        Archive::Missing => Some(
            "System scrcpy server missing; reinstall the scrcpy package"@,
        ),
        Archive::Unknown => Some("Cannot inspect system scrcpy server"@),
        Archive::Found { file, len, signature } => if !file || len > MAX_SERVER {
            Some("Invalid system scrcpy server; reinstall the scrcpy package"@)
        } else {
            match signature {
                None => Some("Cannot read system scrcpy server; reinstall the scrcpy package"@),
                Some(s) => if s@ != zip_signature() {
                    Some("Invalid system scrcpy server; reinstall the scrcpy package"@)
                } else {
                    None
                },
            }
        },
    }
}

/// Whether the installed server can be used.
pub fn verify_archive(archive: &Archive) -> (r: Result<(), &'static str>)
    ensures
        match r {
            Ok(()) => archive_error(*archive) is None,
            Err(e) => archive_error(*archive) == Some(e@),
        },
{
    match archive {
        Archive::Missing => Err("System scrcpy server missing; reinstall the scrcpy package"),
        Archive::Unknown => Err("Cannot inspect system scrcpy server"),
        Archive::Found { file, len, signature } => if !*file || *len > MAX_SERVER {
            Err("Invalid system scrcpy server; reinstall the scrcpy package")
        } else {
            match signature {
                None => Err("Cannot read system scrcpy server; reinstall the scrcpy package"),
                Some(s) => {
                    let zip: [u8; 4] = [80, 75, 3, 4];
                    assert(zip@ =~= zip_signature());
                    if !bytes::same(s, &zip) {
                        Err("Invalid system scrcpy server; reinstall the scrcpy package")
                    } else {
                        Ok(())
                    }
                },
            }
        },
    }
}

/// What is wrong with the installed mirror, if anything.
pub open spec fn version_error(output: Result<Vec<u8>, &'static str>) -> Option<Seq<char>> {
    match output {
        Err(_) => Some("scrcpy is missing or cannot run; install scrcpy 4.1"@),
        Ok(b) => if !is_supported(text::lossy(b@)) {
            Some("This OmaClip release requires scrcpy 4.1; installed version is unsupported"@)
        } else {
            None
        },
    }
}

/// Whether the installed mirror, which answered `output` to [`version_call`], can
/// be used.
pub fn verify_version(output: &Result<Vec<u8>, &'static str>) -> (r: Result<(), &'static str>)
    ensures
        match r {
            Ok(()) => version_error(*output) is None,
            Err(e) => version_error(*output) == Some(e@),
        },
{
    match output {
        Err(_) => Err("scrcpy is missing or cannot run; install scrcpy 4.1"),
        Ok(b) => if !compatible_version(b) {
            Err("This OmaClip release requires scrcpy 4.1; installed version is unsupported")
        } else {
            Ok(())
        },
    }
}

/// Whether the installed mirror and its server can be used.
pub fn verify(output: &Result<Vec<u8>, &'static str>, archive: &Archive) -> (r: Result<
    (),
    &'static str,
>)
    ensures
        match r {
            Ok(()) => version_error(*output) is None && archive_error(*archive) is None,
            Err(e) => if version_error(*output) is Some {
                version_error(*output) == Some(e@)
            } else {
                archive_error(*archive) == Some(e@)
            },
        },
{
    match verify_version(output) {
        Err(e) => Err(e),
        Ok(()) => verify_archive(archive),
    }
}

// ---------------------------------------------------------------------------
// One session's server
// ---------------------------------------------------------------------------
/// How often the server is tried to be reached.
pub const ATTEMPTS: u8 = 40;

/// What is done next to open the transport.
#[derive(Clone, Copy)]
pub enum Stage {
    /// Nothing yet.
    Idle,
    /// The installed mirror is asked for its version.
    Version,
    /// The installed server is inspected.
    Archive,
    /// The phone is asked for its identity.
    Identity,
    /// The processes of this machine are listed.
    Processes,
    /// The processes of the phone are listed.
    Competitors,
    /// The server is copied to the phone.
    Push,
    /// A local port is chosen.
    Port,
    /// The port is forwarded to the phone.
    Forward,
    /// The server is started.
    Spawn,
    /// The server is tried to be reached, with this many attempts left.
    Connect(u8),
    /// A pause is made, with this many attempts left.
    Rest(u8),
    /// The server is reached.
    Opened,
    /// The transport cannot be opened.
    Failed(&'static str),
}

/// What a [`Stage`] is.
pub enum StageView {
    Idle,
    Version,
    Archive,
    Identity,
    Processes,
    Competitors,
    Push,
    Port,
    Forward,
    Spawn,
    Connect(u8),
    Rest(u8),
    Opened,
    Failed(Seq<char>),
}

impl View for Stage {
    type V = StageView;

    open spec fn view(&self) -> StageView {
        match self {
            Stage::Idle => StageView::Idle,
            Stage::Version => StageView::Version,
            Stage::Archive => StageView::Archive,
            Stage::Identity => StageView::Identity,
            Stage::Processes => StageView::Processes,
            Stage::Competitors => StageView::Competitors,
            Stage::Push => StageView::Push,
            Stage::Port => StageView::Port,
            Stage::Forward => StageView::Forward,
            Stage::Spawn => StageView::Spawn,
            Stage::Connect(n) => StageView::Connect(*n),
            Stage::Rest(n) => StageView::Rest(*n),
            Stage::Opened => StageView::Opened,
            Stage::Failed(e) => StageView::Failed(e@),
        }
    }
}

/// What came of the last step.
pub enum OpenReply {
    /// The transport is to be opened.
    Begin,
    /// A helper ended.
    Output(Result<Vec<u8>, &'static str>),
    /// The installed server was inspected.
    Archive(Archive),
    /// The processes of this machine were listed, where that was possible.
    Processes(Option<Vec<Process>>),
    /// A free local port was found, or none.
    Port(Option<u16>),
    /// The server was started, or not.
    Spawned(Result<(), &'static str>),
    /// The server ended.
    Exited,
    /// The server was reached and sent this byte, or was not reached.
    Greeted(Option<u8>),
    /// The pause is over.
    Rested,
}

/// What is to be done to open the transport.
pub enum OpenRequest {
    /// Begin.
    Nothing,
    /// Run this helper.
    Run(Call),
    /// Inspect the installed server.
    ReadArchive,
    /// List the processes of this machine.
    ListProcesses,
    /// Find a free local port.
    ChoosePort,
    /// Start this program and let it run.
    Spawn { program: String, args: Vec<String> },
    /// Connect to this local port and read one byte, within half a second and
    /// while the server runs.
    Connect(u16),
    /// Wait a tenth of a second.
    Rest,
    /// Nothing: the connection is the control channel.
    Opened,
    /// Nothing: this is why.
    Failed(&'static str),
}

/// What an [`OpenRequest`] holds.
pub enum OpenRequestView {
    Nothing,
    Run(CallView),
    ReadArchive,
    ListProcesses,
    ChoosePort,
    Spawn { program: Seq<char>, args: Seq<Seq<char>> },
    Connect(u16),
    Rest,
    Opened,
    Failed(Seq<char>),
}

impl View for OpenRequest {
    type V = OpenRequestView;

    open spec fn view(&self) -> OpenRequestView {
        match self {
            OpenRequest::Nothing => OpenRequestView::Nothing,
            OpenRequest::Run(c) => OpenRequestView::Run(c@),
            OpenRequest::ReadArchive => OpenRequestView::ReadArchive,
            OpenRequest::ListProcesses => OpenRequestView::ListProcesses,
            OpenRequest::ChoosePort => OpenRequestView::ChoosePort,
            OpenRequest::Spawn { program, args } => OpenRequestView::Spawn {
                program: program@,
                args: args.deep_view(),
            },
            OpenRequest::Connect(p) => OpenRequestView::Connect(*p),
            OpenRequest::Rest => OpenRequestView::Rest,
            OpenRequest::Opened => OpenRequestView::Opened,
            OpenRequest::Failed(e) => OpenRequestView::Failed(e@),
        }
    }
}

/// The clipboard server of one session on one phone.
pub struct Transport {
    pub adb: Adb,
    pub device: Device,
    pub scid: String,
    remote: String,
    port: Option<u16>,
    pushed: bool,
    child: bool,
    stage: Stage,
}

/// What a [`Transport`] holds.
pub struct TransportView {
    pub adb: AdbView,
    pub device: DeviceView,
    /// The random id of the session.
    pub scid: Seq<char>,
    /// The server's file on the phone.
    pub remote: Seq<char>,
    /// The local port that is or may be forwarded.
    pub port: Option<u16>,
    /// The server's file is or may be on the phone.
    pub pushed: bool,
    /// The server was started.
    pub child: bool,
    pub stage: StageView,
}

impl View for Transport {
    type V = TransportView;

    closed spec fn view(&self) -> TransportView {
        TransportView {
            adb: self.adb@,
            device: self.device@,
            scid: self.scid@,
            remote: self.remote@,
            port: self.port,
            pushed: self.pushed,
            child: self.child,
            stage: self.stage@,
        }
    }
}

/// The bytes of a session's id: 31 random bits, and 1 in place of 0.
pub open spec fn id_bytes(random: Seq<u8>) -> Seq<u8> {
    let b = random.update(0, (random[0] % 128) as u8);
    if b == seq![0u8, 0, 0, 0] {
        seq![0u8, 0, 0, 1]
    } else {
        b
    }
}

/// The id of a session: a positive number of 31 bits in hexadecimal.
pub open spec fn session_id(random: Seq<u8>) -> Seq<char> {
    text::hex_of(id_bytes(random))
}

/// The server's file on the phone.
pub open spec fn remote_file(scid: Seq<char>) -> Seq<char> {
    "/data/local/tmp/omaclip-"@ + scid + ".jar"@
}

/// The local side of a forwarded port.
pub open spec fn local_side(port: u16) -> Seq<char> {
    "tcp:"@ + text::decimal_of(port as nat)
}

/// The phone's side of the forwarded port.
pub open spec fn phone_side(scid: Seq<char>) -> Seq<char> {
    "localabstract:scrcpy_"@ + scid
}

/// The error where the server does not answer.
pub open spec fn not_reached() -> Seq<char> {
    "Android clipboard server did not start; unlock phone and check scrcpy 4.1 compatibility"@
}

impl TransportView {
    /// A session's transport before it is opened.
    pub open spec fn new(adb: AdbView, device: DeviceView, random: Seq<u8>) -> TransportView {
        TransportView {
            adb,
            device,
            scid: session_id(random),
            remote: remote_file(session_id(random)),
            port: None,
            pushed: false,
            child: false,
            stage: StageView::Idle,
        }
    }

    /// The phone is asked on a transport that the server named.
    pub open spec fn asks_phone(self) -> bool {
        match self.stage {
            StageView::Identity => true,
            StageView::Processes => true,
            StageView::Competitors => true,
            _ => self.may_leave_file(),
        }
    }

    /// The server's file is or may be on the phone.
    pub open spec fn may_leave_file(self) -> bool {
        match self.stage {
            StageView::Push => true,
            StageView::Port => true,
            _ => self.may_leave_port(),
        }
    }

    /// The local port is or may be forwarded.
    pub open spec fn may_leave_port(self) -> bool {
        match self.stage {
            StageView::Forward => true,
            StageView::Spawn => true,
            _ => self.may_leave_server(),
        }
    }

    /// The server runs.
    pub open spec fn may_leave_server(self) -> bool {
        match self.stage {
            StageView::Connect(_) => true,
            StageView::Rest(_) => true,
            StageView::Opened => true,
            _ => false,
        }
    }

    /// Whatever a step may leave behind is remembered before the step, so that
    /// closing removes it.
    pub open spec fn inv(self) -> bool {
        &&& self.remote == remote_file(self.scid)
        &&& self.asks_phone() ==> adb::is_transport_id(self.device.id)
        &&& self.may_leave_file() ==> self.pushed
        &&& self.may_leave_port() ==> self.port is Some
        &&& self.may_leave_server() ==> self.child
        &&& self.stage matches StageView::Connect(n) ==> 1 <= n <= ATTEMPTS
        &&& self.stage matches StageView::Rest(n) ==> n < ATTEMPTS
        &&& self.port is Some ==> self.pushed
        &&& self.pushed ==> adb::is_transport_id(self.device.id)
    }

    /// Another step is next.
    pub open spec fn at(self, stage: StageView) -> TransportView {
        TransportView { stage, ..self }
    }

    /// The next step after a helper, unless it failed.
    pub open spec fn past(
        self,
        output: Result<Vec<u8>, &'static str>,
        stage: StageView,
    ) -> TransportView {
        match output {
            Ok(_) => self.at(stage),
            Err(e) => self.at(StageView::Failed(e@)),
        }
    }

    /// The next step after the phone told its identity.
    pub open spec fn identified(
        self,
        output: Result<Vec<u8>, &'static str>,
        identity: Seq<char>,
    ) -> TransportView {
        match output {
            Err(e) => self.at(StageView::Failed(e@)),
            Ok(b) => match adb::identity_in(b@) {
                Err(e) => self.at(StageView::Failed(e)),
                Ok(v) => if v == identity {
                    self.at(StageView::Processes)
                } else {
                    self.at(
                        StageView::Failed(
                            "Selected endpoint identifies a different phone; select the intended phone again"@,
                        ),
                    )
                },
            },
        }
    }

    /// The next step after the phone's processes were listed.
    pub open spec fn unrivalled(self, output: Result<Vec<u8>, &'static str>) -> TransportView {
        match output {
            Err(e) => self.at(StageView::Failed(e@)),
            Ok(b) => if adb::has_foreign_server(text::lossy(b@), self.scid) {
                self.at(
                    StageView::Failed(
                        "Paused for another Android scrcpy server; close its client to resume"@,
                    ),
                )
            } else {
                TransportView { pushed: true, stage: StageView::Push, ..self }
            },
        }
    }

    /// The state after the last step. A reply that does not fit it changes nothing.
    pub open spec fn next(self, reply: OpenReply, identity: Seq<char>) -> TransportView {
        match (self.stage, reply) {
            (StageView::Idle, OpenReply::Begin) => self.at(StageView::Version),
            (StageView::Version, OpenReply::Output(output)) => match version_error(output) {
                Some(e) => self.at(StageView::Failed(e)),
                None => self.at(StageView::Archive),
            },
            (StageView::Archive, OpenReply::Archive(archive)) => match archive_error(archive) {
                Some(e) => self.at(StageView::Failed(e)),
                None => if adb::is_transport_id(self.device.id) {
                    self.at(StageView::Identity)
                } else {
                    self.at(StageView::Failed(adb::no_transport_id()))
                },
            },
            (StageView::Identity, OpenReply::Output(output)) => self.identified(output, identity),
            (StageView::Processes, OpenReply::Processes(p)) => if adb::is_mirroring(
                match p {
                    Some(p) => Some(p@),
                    None => None,
                },
            ) {
                self.at(
                    StageView::Failed(
                        "Paused for scrcpy; close scrcpy/Android Mirror to resume"@,
                    ),
                )
            } else {
                self.at(StageView::Competitors)
            },
            (StageView::Competitors, OpenReply::Output(output)) => self.unrivalled(output),
            (StageView::Push, OpenReply::Output(output)) => self.past(output, StageView::Port),
            (StageView::Port, OpenReply::Port(port)) => match port {
                Some(p) => TransportView { port: Some(p), stage: StageView::Forward, ..self },
                None => self.at(StageView::Failed("Cannot allocate ADB forward port"@)),
            },
            (StageView::Forward, OpenReply::Output(output)) => self.past(output, StageView::Spawn),
            (StageView::Spawn, OpenReply::Spawned(r)) => match r {
                Ok(()) => TransportView {
                    child: true,
                    stage: StageView::Connect(ATTEMPTS),
                    ..self
                },
                Err(e) => self.at(StageView::Failed(e@)),
            },
            (StageView::Connect(_), OpenReply::Exited) => self.at(
                StageView::Failed(not_reached()),
            ),
            (StageView::Connect(n), OpenReply::Greeted(byte)) => if byte == Some(0u8) {
                self.at(StageView::Opened)
            } else {
                self.at(StageView::Rest((n - 1) as u8))
            },
            (StageView::Rest(n), OpenReply::Rested) => if n == 0 {
                self.at(StageView::Failed(not_reached()))
            } else {
                self.at(StageView::Connect(n))
            },
            _ => self,
        }
    }

    /// The command line of the server on the phone.
    pub open spec fn server_args(self) -> Seq<Seq<char>> {
        seq![
            "-t"@,
            self.device.id,
            "shell"@,
            "CLASSPATH="@ + self.remote,
            "app_process"@,
            "/"@,
            "com.genymobile.scrcpy.Server"@,
            VERSION@,
            "scid="@ + self.scid,
            "log_level=error"@,
            "video=false"@,
            "audio=false"@,
            "control=true"@,
            "tunnel_forward=true"@,
            "send_dummy_byte=true"@,
            "send_device_meta=false"@,
            "clipboard_autosync=true"@,
            "power_on=false"@,
            "cleanup=true"@,
        ]
    }

    /// What is to be done in the present state.
    pub open spec fn request(self) -> OpenRequestView {
        match self.stage {
            StageView::Idle => OpenRequestView::Nothing,
            StageView::Version => OpenRequestView::Run(version_request()),
            StageView::Archive => OpenRequestView::ReadArchive,
            StageView::Identity => OpenRequestView::Run(
                self.adb.device_call(
                    self.device.id,
                    seq!["shell"@, "getprop"@, "ro.serialno"@],
                ),
            ),
            StageView::Processes => OpenRequestView::ListProcesses,
            StageView::Competitors => OpenRequestView::Run(
                self.adb.device_call(
                    self.device.id,
                    seq!["shell"@, "ps"@, "-A"@, "-o"@, "ARGS"@],
                ),
            ),
            StageView::Push => OpenRequestView::Run(
                self.adb.invocation(
                    seq![
                        "-t"@,
                        self.device.id,
                        "push"@,
                        "/usr/share/scrcpy/scrcpy-server"@,
                        self.remote,
                    ],
                    None,
                    20,
                ),
            ),
            StageView::Port => OpenRequestView::ChoosePort,
            StageView::Forward => OpenRequestView::Run(
                self.adb.device_call(
                    self.device.id,
                    seq![
                        "forward"@,
                        "--no-rebind"@,
                        local_side(self.port->0),
                        phone_side(self.scid),
                    ],
                ),
            ),
            StageView::Spawn => OpenRequestView::Spawn {
                program: self.adb.path,
                args: self.server_args(),
            },
            StageView::Connect(_) => OpenRequestView::Connect(self.port->0),
            StageView::Rest(_) => OpenRequestView::Rest,
            StageView::Opened => OpenRequestView::Opened,
            StageView::Failed(e) => OpenRequestView::Failed(e),
        }
    }
}

impl Transport {
    /// The transport of a session, whose id comes from four random bytes.
    pub fn new(adb: Adb, device: Device, random: Option<[u8; 4]>) -> (r: Result<
        Transport,
        &'static str,
    >)
        ensures
            match r {
                Ok(t) => random matches Some(b) && t@ == TransportView::new(adb@, device@, b@)
                    && t@.inv(),
                Err(e) => random is None && e@ == "System randomness unavailable"@,
            },
    {
        match random {
            None => Err("System randomness unavailable"),
            Some(b) => {
                let top: u8 = b[0] % 128;
                let low: u8 = if top == 0 && b[1] == 0 && b[2] == 0 && b[3] == 0 {
                    1
                } else {
                    b[3]
                };
                let id: [u8; 4] = [top, b[1], b[2], low];
                proof {
                    let r = b@.update(0, (b@[0] % 128) as u8);
                    assert(r =~= seq![top, b@[1], b@[2], b@[3]]);
                    assert(r == seq![0u8, 0, 0, 0] ==> r[1] == 0 && r[2] == 0 && r[3] == 0 && r[0]
                        == 0);
                    assert(id@ =~= id_bytes(b@));
                }
                let scid = text::hex(&id);
                let remote = text::pair(&text::pair("/data/local/tmp/omaclip-", &scid), ".jar");
                Ok(
                    Transport {
                        adb,
                        device,
                        scid,
                        remote,
                        port: None,
                        pushed: false,
                        child: false,
                        stage: Stage::Idle,
                    },
                )
            },
        }
    }

    fn fail(&mut self, e: &'static str)
        ensures
            final(self)@ == old(self)@.at(StageView::Failed(e@)),
    {
        self.stage = Stage::Failed(e);
    }

    fn advance(&mut self, output: Result<Vec<u8>, &'static str>, stage: Stage)
        ensures
            final(self)@ == old(self)@.past(output, stage@),
    {
        match output {
            Ok(_) => {
                self.stage = stage;
            },
            Err(e) => self.fail(e),
        }
    }

    fn identified(&mut self, output: Result<Vec<u8>, &'static str>, identity: &str)
        ensures
            final(self)@ == old(self)@.identified(output, identity@),
    {
        match output {
            Err(e) => self.fail(e),
            Ok(b) => match adb::identity_of(&b) {
                Err(e) => self.fail(e),
                Ok(v) => if text::same(&v, identity) {
                    self.stage = Stage::Processes;
                } else {
                    self.fail(
                        "Selected endpoint identifies a different phone; select the intended phone again",
                    )
                },
            },
        }
    }

    fn unrivalled(&mut self, output: Result<Vec<u8>, &'static str>)
        ensures
            final(self)@ == old(self)@.unrivalled(output),
    {
        match output {
            Err(e) => self.fail(e),
            Ok(b) => match adb::competitors_result(&b, &self.scid) {
                Err(e) => self.fail(e),
                Ok(()) => {
                    self.pushed = true;
                    self.stage = Stage::Push;
                },
            },
        }
    }

    fn answer(&mut self, reply: OpenReply, identity: &str)
        requires
            old(self)@.inv(),
        ensures
            final(self)@ == old(self)@.next(reply, identity@),
            final(self)@.inv(),
    {
        match (self.stage, reply) {
            (Stage::Idle, OpenReply::Begin) => {
                self.stage = Stage::Version;
            },
            (Stage::Version, OpenReply::Output(output)) => match verify_version(&output) {
                Err(e) => self.fail(e),
                Ok(()) => {
                    self.stage = Stage::Archive;
                },
            },
            (Stage::Archive, OpenReply::Archive(archive)) => match verify_archive(&archive) {
                Err(e) => self.fail(e),
                Ok(()) => match self.adb.identity(&self.device.id) {
                    Err(e) => self.fail(e),
                    Ok(_) => {
                        self.stage = Stage::Identity;
                    },
                },
            },
            (Stage::Identity, OpenReply::Output(output)) => self.identified(output, identity),
            (Stage::Processes, OpenReply::Processes(p)) => if adb::local_scrcpy(&p) {
                self.fail("Paused for scrcpy; close scrcpy/Android Mirror to resume")
            } else {
                self.stage = Stage::Competitors;
            },
            (Stage::Competitors, OpenReply::Output(output)) => self.unrivalled(output),
            (Stage::Push, OpenReply::Output(output)) => self.advance(output, Stage::Port),
            (Stage::Port, OpenReply::Port(port)) => match port {
                Some(p) => {
                    self.port = Some(p);
                    self.stage = Stage::Forward;
                },
                None => self.fail("Cannot allocate ADB forward port"),
            },
            (Stage::Forward, OpenReply::Output(output)) => self.advance(output, Stage::Spawn),
            (Stage::Spawn, OpenReply::Spawned(r)) => match r {
                Ok(()) => {
                    self.child = true;
                    self.stage = Stage::Connect(ATTEMPTS);
                },
                Err(e) => self.fail(e),
            },
            (Stage::Connect(_), OpenReply::Exited) => self.fail(
                "Android clipboard server did not start; unlock phone and check scrcpy 4.1 compatibility",
            ),
            (Stage::Connect(n), OpenReply::Greeted(byte)) => if byte == Some(0u8) {
                self.stage = Stage::Opened;
            } else {
                self.stage = Stage::Rest(n - 1);
            },
            (Stage::Rest(n), OpenReply::Rested) => if n == 0 {
                self.fail(
                    "Android clipboard server did not start; unlock phone and check scrcpy 4.1 compatibility",
                )
            } else {
                self.stage = Stage::Connect(n);
            },
            _ => {},
        }
    }

    fn push_call(&self) -> (r: Call)
        ensures
            r@ == self@.adb.invocation(
                seq![
                    "-t"@,
                    self@.device.id,
                    "push"@,
                    "/usr/share/scrcpy/scrcpy-server"@,
                    self@.remote,
                ],
                None,
                20,
            ),
    {
        let args = ["-t", self.device.id.as_str(), "push", server_path(), self.remote.as_str()];
        assert(args.deep_view() =~= seq![
            "-t"@,
            self@.device.id,
            "push"@,
            "/usr/share/scrcpy/scrcpy-server"@,
            self@.remote,
        ]);
        self.adb.call(&args, None, 20)
    }

    fn forward_call(&self, port: u16) -> (r: Result<Call, &'static str>)
        ensures
            match r {
                Ok(c) => adb::is_transport_id(self@.device.id) && c@ == self@.adb.device_call(
                    self@.device.id,
                    seq![
                        "forward"@,
                        "--no-rebind"@,
                        local_side(port),
                        phone_side(self@.scid),
                    ],
                ),
                Err(e) => !adb::is_transport_id(self@.device.id) && e@ == adb::no_transport_id(),
            },
    {
        let local = text::pair("tcp:", &text::decimal(port as u64));
        let remote = text::pair("localabstract:scrcpy_", &self.scid);
        let args = ["forward", "--no-rebind", local.as_str(), remote.as_str()];
        assert(args.deep_view() =~= seq![
            "forward"@,
            "--no-rebind"@,
            local_side(port),
            phone_side(self@.scid),
        ]);
        self.adb.device(&self.device.id, &args)
    }

    fn server_args(&self) -> (r: Vec<String>)
        ensures
            r.deep_view() == self@.server_args(),
    {
        let classpath = text::pair("CLASSPATH=", &self.remote);
        let scid = text::pair("scid=", &self.scid);
        let args = [
            "-t",
            self.device.id.as_str(),
            "shell",
            classpath.as_str(),
            "app_process",
            "/",
            "com.genymobile.scrcpy.Server",
            VERSION,
            scid.as_str(),
            "log_level=error",
            "video=false",
            "audio=false",
            "control=true",
            "tunnel_forward=true",
            "send_dummy_byte=true",
            "send_device_meta=false",
            "clipboard_autosync=true",
            "power_on=false",
            "cleanup=true",
        ];
        assert(args.deep_view() =~= self@.server_args());
        text::own_all(&args)
    }

    fn run(r: Result<Call, &'static str>) -> (q: OpenRequest)
        ensures
            match r {
                Ok(c) => q@ == OpenRequestView::Run(c@),
                Err(e) => q@ == OpenRequestView::Failed(e@),
            },
    {
        match r {
            Ok(c) => OpenRequest::Run(c),
            Err(e) => OpenRequest::Failed(e),
        }
    }

    fn request(&self) -> (r: OpenRequest)
        requires
            self@.inv(),
        ensures
            r@ == self@.request(),
    {
        match self.stage {
            Stage::Idle => OpenRequest::Nothing,
            Stage::Version => OpenRequest::Run(version_call()),
            Stage::Archive => OpenRequest::ReadArchive,
            Stage::Identity => Self::run(self.adb.identity(&self.device.id)),
            Stage::Processes => OpenRequest::ListProcesses,
            Stage::Competitors => Self::run(self.adb.competitors(&self.device.id, false)),
            Stage::Push => OpenRequest::Run(self.push_call()),
            Stage::Port => OpenRequest::ChoosePort,
            Stage::Forward => match self.port {
                Some(p) => Self::run(self.forward_call(p)),
                None => OpenRequest::Nothing,
            },
            Stage::Spawn => OpenRequest::Spawn {
                program: self.adb.path.clone(),
                args: self.server_args(),
            },
            Stage::Connect(_) => match self.port {
                Some(p) => OpenRequest::Connect(p),
                None => OpenRequest::Nothing,
            },
            Stage::Rest(_) => OpenRequest::Rest,
            Stage::Opened => OpenRequest::Opened,
            Stage::Failed(e) => OpenRequest::Failed(e),
        }
    }

    /// Takes what came of the last step, and says what is to be done next to reach
    /// the server on the phone with this identity.
    pub fn open(&mut self, reply: OpenReply, identity: &str) -> (r: OpenRequest)
        requires
            old(self)@.inv(),
        ensures
            final(self)@.inv(),
            final(self)@ == old(self)@.next(reply, identity@),
            r@ == final(self)@.request(),
            r matches OpenRequest::Spawn { program, args } ==> program@ == final(self)@.adb.path
                && args.deep_view() == seq![
                    "-t"@,
                    final(self)@.device.id,
                    "shell"@,
                    "CLASSPATH="@ + ("/data/local/tmp/omaclip-"@ + final(self)@.scid + ".jar"@),
                    "app_process"@,
                    "/"@,
                    "com.genymobile.scrcpy.Server"@,
                    "4.1"@,
                    "scid="@ + final(self)@.scid,
                    "log_level=error"@,
                    "video=false"@,
                    "audio=false"@,
                    "control=true"@,
                    "tunnel_forward=true"@,
                    "send_dummy_byte=true"@,
                    "send_device_meta=false"@,
                    "clipboard_autosync=true"@,
                    "power_on=false"@,
                    "cleanup=true"@,
                ],
    {
        self.answer(reply, identity);
        self.request()
    }

    /// Asks whether another mirror is in the way, unless one runs on this machine.
    pub fn check(&self, processes: &Option<Vec<Process>>) -> (r: Result<Call, &'static str>)
        ensures
            match r {
                Ok(c) => !adb::is_mirroring(
                    match processes {
                        Some(p) => Some(p@),
                        None => None,
                    },
                ) && adb::is_transport_id(self@.device.id) && c@ == self@.adb.device_call(
                    self@.device.id,
                    seq!["shell"@, "ps"@, "-A"@, "-o"@, "ARGS"@],
                ),
                Err(e) => if adb::is_mirroring(
                    match processes {
                        Some(p) => Some(p@),
                        None => None,
                    },
                ) {
                    e@ == "Paused for scrcpy; close scrcpy/Android Mirror to resume"@
                } else {
                    !adb::is_transport_id(self@.device.id) && e@ == adb::no_transport_id()
                },
            },
    {
        self.adb.competitors(&self.device.id, adb::local_scrcpy(processes))
    }

    /// Judges the answer to [`Transport::check`].
    pub fn check_result(&self, output: &[u8]) -> (r: Result<(), &'static str>)
        ensures
            r is Ok <==> !adb::has_foreign_server(text::lossy(output@), self@.scid),
            r matches Err(e) ==> e@
                == "Paused for another Android scrcpy server; close its client to resume"@,
    {
        adb::competitors_result(output, &self.scid)
    }
}

// ---------------------------------------------------------------------------
// Closing
// ---------------------------------------------------------------------------
/// What is to be done to close the transport.
pub enum CloseStep {
    /// Stop the server's client.
    Stop,
    /// Run this helper, and let [`Transport::listed`] judge what it says of the
    /// port.
    List { port: u16, call: Call },
    /// Run this helper, whatever comes of it.
    Clean(Call),
    /// Nothing more.
    Done,
}

/// What a [`CloseStep`] holds.
pub enum CloseStepView {
    Stop,
    List { port: u16, call: CallView },
    Clean(CallView),
    Done,
}

impl View for CloseStep {
    type V = CloseStepView;

    open spec fn view(&self) -> CloseStepView {
        match self {
            CloseStep::Stop => CloseStepView::Stop,
            CloseStep::List { port, call } => CloseStepView::List { port: *port, call: call@ },
            CloseStep::Clean(call) => CloseStepView::Clean(call@),
            CloseStep::Done => CloseStepView::Done,
        }
    }
}

/// Whether a line of the list of forwarded ports is the one of this session.
pub open spec fn is_own_forward(line: Seq<char>, port: u16, scid: Seq<char>) -> bool {
    let fields = text::words_of(line);
    fields.len() == 3 && fields[1] == local_side(port) && fields[2] == phone_side(scid)
}

/// Whether the list of forwarded ports holds the one of this session.
pub open spec fn owns_forward(list: Seq<char>, port: u16, scid: Seq<char>) -> bool {
    exists|i: int|
        0 <= i < text::split_at_char(list, '\n').len() && is_own_forward(
            #[trigger] text::split_at_char(list, '\n')[i],
            port,
            scid,
        )
}

/// What ends the server on the phone, that of this session and no other, and
/// removes its file.
pub open spec fn cleanup_script(scid: Seq<char>, remote: Seq<char>) -> Seq<char> {
    "scid="@ + scid
        + "; needle=\"com.genymobile.scrcpy.Server 4.1 scid=$scid\"; ps -A -o PID,ARGS | while read -r pid args; do case \" $args \" in *\" $needle \"*) kill \"$pid\";; esac; done; rm -f "@
        + remote
}

impl TransportView {
    /// The next step of closing, and the state after it.
    pub open spec fn closing(self) -> (TransportView, CloseStepView) {
        let t = self.at(StageView::Idle);
        if self.child {
            (TransportView { child: false, ..t }, CloseStepView::Stop)
        } else if self.port is Some {
            (
                TransportView { port: None, ..t },
                CloseStepView::List {
                    port: self.port->0,
                    call: self.adb.invocation(seq!["forward"@, "--list"@], None, 3),
                },
            )
        } else if self.pushed {
            (
                TransportView { pushed: false, ..t },
                CloseStepView::Clean(
                    self.adb.device_call(
                        self.device.id,
                        seq!["shell"@, cleanup_script(self.scid, self.remote)],
                    ),
                ),
            )
        } else {
            (t, CloseStepView::Done)
        }
    }
}

impl TransportView {
    /// What removes the forwarded port, where `output`, the list of forwarded ports,
    /// shows it as the one of this session.
    pub open spec fn removal(
        self,
        port: u16,
        output: Result<Vec<u8>, &'static str>,
    ) -> Option<CallView> {
        if adb::is_transport_id(self.device.id) && (output matches Ok(b) && owns_forward(
            text::lossy(b@),
            port,
            self.scid,
        )) {
            Some(
                self.adb.device_call(
                    self.device.id,
                    seq!["forward"@, "--remove"@, local_side(port)],
                ),
            )
        } else {
            None
        }
    }
}

impl Transport {
    /// The next step of closing. What a step removes is forgotten with it, and
    /// closing is done where nothing is left.
    pub fn close(&mut self) -> (r: CloseStep)
        requires
            old(self)@.inv(),
        ensures
            final(self)@.inv(),
            (final(self)@, r@) == old(self)@.closing(),
    {
        self.stage = Stage::Idle;
        if self.child {
            self.child = false;
            return CloseStep::Stop;
        }
        match self.port {
            Some(port) => {
                self.port = None;
                let args = ["forward", "--list"];
                assert(args.deep_view() =~= seq!["forward"@, "--list"@]);
                return CloseStep::List { port, call: self.adb.call(&args, None, 3) };
            },
            None => {},
        }
        if self.pushed {
            self.pushed = false;
            let script = text::pair(
                &text::pair(
                    &text::pair("scid=", &self.scid),
                    "; needle=\"com.genymobile.scrcpy.Server 4.1 scid=$scid\"; ps -A -o PID,ARGS | while read -r pid args; do case \" $args \" in *\" $needle \"*) kill \"$pid\";; esac; done; rm -f ",
                ),
                &self.remote,
            );
            let args = ["shell", script.as_str()];
            assert(args.deep_view() =~= seq![
                "shell"@,
                cleanup_script(self@.scid, self@.remote),
            ]);
            match self.adb.device(&self.device.id, &args) {
                Ok(call) => {
                    return CloseStep::Clean(call);
                },
                Err(_) => {},
            }
        }
        CloseStep::Done
    }

    /// Whether the list of forwarded ports holds the one of this session.
    pub fn owns(&self, list: &str, port: u16) -> (r: bool)
        ensures
            r == owns_forward(list@, port, self@.scid),
    {
        let local = text::pair("tcp:", &text::decimal(port as u64));
        let remote = text::pair("localabstract:scrcpy_", &self.scid);
        let lines = text::split(list, '\n');
        let ghost w = text::split_at_char(list@, '\n');
        let mut i: usize = 0;
        while i < lines.len()
            invariant
                i <= lines@.len(),
                w == text::split_at_char(list@, '\n'),
                lines.deep_view() == w,
                local@ == local_side(port),
                remote@ == phone_side(self@.scid),
                forall|j: int| 0 <= j < i ==> !is_own_forward(#[trigger] w[j], port, self@.scid),
            decreases lines@.len() - i,
        {
            assert(w[i as int] == lines@[i as int]@);
            let fields = text::words(&lines[i]);
            let ghost f = fields.deep_view();
            assert(fields@.len() == f.len());
            if fields.len() == 3 {
                assert(f[1] == fields@[1]@ && f[2] == fields@[2]@);
                if text::same(&fields[1], &local) && text::same(&fields[2], &remote) {
                    return true;
                }
            }
            i += 1;
        }
        false
    }

    /// Removes the forwarded port where it is the one of this session: `output` is
    /// what the list of forwarded ports says.
    pub fn listed(&self, port: u16, output: &Result<Vec<u8>, &'static str>) -> (r: Option<Call>)
        ensures
            match r {
                Some(c) => self@.removal(port, *output) == Some(c@),
                None => self@.removal(port, *output) is None,
            },
    {
        match output {
            Err(_) => None,
            Ok(list) => if self.owns(&text::utf8_lossy(list), port) {
                let local = text::pair("tcp:", &text::decimal(port as u64));
                let args = ["forward", "--remove", local.as_str()];
                assert(args.deep_view() =~= seq!["forward"@, "--remove"@, local_side(port)]);
                match self.adb.device(&self.device.id, &args) {
                    Ok(call) => Some(call),
                    Err(_) => None,
                }
            } else {
                None
            },
        }
    }
}

// ---------------------------------------------------------------------------
// Laws
// ---------------------------------------------------------------------------
/// The id of a session is a positive number of 31 bits in eight digits: the lower 31
/// of the random bits, or 1 where all of these are zero.
pub proof fn law_session_id(random: Seq<u8>)
    requires
        random.len() == 4,
    ensures
        session_id(random).len() == 8,
        text::digits_value(session_id(random), 16) matches Some(v) && 0 < v < 0x8000_0000 && ({
            let n = (random[0] % 128) * 0x100_0000 + random[1] * 0x1_0000 + random[2] * 0x100
                + random[3];
            v == if n == 0 {
                1
            } else {
                n
            }
        }),
{
    let b = id_bytes(random);
    let id = session_id(random);
    let d = |k: int| if k % 2 == 0 {
        (b[k / 2] / 16) as nat
    } else {
        (b[k / 2] % 16) as nat
    };
    reveal_with_fuel(text::hex_of, 5);
    assert(b.drop_last() =~= seq![b[0], b[1], b[2]]);
    assert(seq![b[0], b[1], b[2]].drop_last() =~= seq![b[0], b[1]]);
    assert(seq![b[0], b[1]].drop_last() =~= seq![b[0]]);
    assert(seq![b[0]].drop_last() =~= Seq::<u8>::empty());
    assert(id =~= Seq::new(8, |k: int| text::digit_char(d(k))));
    assert forall|k: int| 0 <= k < 8 implies text::hex_value(#[trigger] id[k]) == Some(d(k))
        && d(k) < 16 by {
        text::lemma_digit_char(d(k));
    }
    lemma_eight_digits(id, d);
    assert(b[0] < 128);
    if b[0] == 0 && b[1] == 0 && b[2] == 0 && b[3] == 0 {
        assert(b =~= seq![0u8, 0, 0, 0]);
        assert(seq![0u8, 0, 0, 1][3] == 1);
    }
    assert(d(0) == b[0] / 16 && d(1) == b[0] % 16);
    assert(d(2) == b[1] / 16 && d(3) == b[1] % 16);
    assert(d(4) == b[2] / 16 && d(5) == b[2] % 16);
    assert(d(6) == b[3] / 16 && d(7) == b[3] % 16);
}

proof fn lemma_eight_digits(id: Seq<char>, d: spec_fn(int) -> nat)
    requires
        id.len() == 8,
        forall|k: int| 0 <= k < 8 ==> text::hex_value(#[trigger] id[k]) == Some(d(k)) && d(k) < 16,
    ensures
        text::digits_value(id, 16) matches Some(v) && v == d(0) * 0x1000_0000 + d(1) * 0x100_0000
            + d(2) * 0x10_0000 + d(3) * 0x1_0000 + d(4) * 0x1000 + d(5) * 0x100 + d(6) * 0x10 + d(7),
{
    let s1 = id.take(1);
    let s2 = id.take(2);
    let s3 = id.take(3);
    let s4 = id.take(4);
    let s5 = id.take(5);
    let s6 = id.take(6);
    let s7 = id.take(7);
    assert(id.drop_last() =~= s7);
    assert(s7.drop_last() =~= s6);
    assert(s6.drop_last() =~= s5);
    assert(s5.drop_last() =~= s4);
    assert(s4.drop_last() =~= s3);
    assert(s3.drop_last() =~= s2);
    assert(s2.drop_last() =~= s1);
    assert(text::digits_value(s1.drop_last(), 16) == Some(0nat));
    assert(text::digits_value(s1, 16) == Some(d(0)));
    assert(text::digits_value(s2, 16) matches Some(v) && v == d(0) * 0x10 + d(1));
    assert(text::digits_value(s3, 16) matches Some(v) && v == d(0) * 0x100 + d(1) * 0x10 + d(2));
    assert(text::digits_value(s4, 16) matches Some(v) && v == d(0) * 0x1000 + d(1) * 0x100 + d(2) * 0x10 + d(3));
    assert(text::digits_value(s5, 16) matches Some(v) && v == d(0) * 0x1_0000 + d(1) * 0x1000 + d(2) * 0x100 + d(3) * 0x10 + d(4));
    assert(text::digits_value(s6, 16) matches Some(v) && v == d(0) * 0x10_0000 + d(1) * 0x1_0000 + d(2) * 0x1000 + d(3) * 0x100
        + d(4) * 0x10 + d(5));
    assert(text::digits_value(s7, 16) matches Some(v) && v == d(0) * 0x100_0000 + d(1) * 0x10_0000 + d(2) * 0x1_0000 + d(3)
        * 0x1000 + d(4) * 0x100 + d(5) * 0x10 + d(6));
}

/// The server is copied to the phone only after the phone on the selected transport
/// has told the expected identity, no mirror runs on this machine and no other
/// server runs on the phone.
pub proof fn law_server_is_copied_only_after_the_checks(
    t: TransportView,
    reply: OpenReply,
    identity: Seq<char>,
)
    ensures
        t.next(reply, identity).pushed && !t.pushed ==> t.stage is Competitors && (reply matches
            OpenReply::Output(Ok(b)) && !adb::has_foreign_server(text::lossy(b@), t.scid)),
        t.next(reply, identity).stage is Competitors && !(t.stage is Competitors) ==> t.stage
            is Processes && (reply matches OpenReply::Processes(Some(p)) && !adb::has_mirror(p@)),
        t.next(reply, identity).stage is Processes && !(t.stage is Processes) ==> t.stage
            is Identity && (reply matches OpenReply::Output(Ok(b)) && adb::identity_in(b@) == Ok::<
            Seq<char>,
            Seq<char>,
        >(identity)),
        t.next(reply, identity).stage is Identity && !(t.stage is Identity) ==> t.stage is Archive
            && (reply matches OpenReply::Archive(a) && archive_error(a) is None),
        t.next(reply, identity).stage is Archive && !(t.stage is Archive) ==> t.stage is Version
            && (reply matches OpenReply::Output(o) && version_error(o) is None),
        t.next(reply, identity).stage is Push && !(t.stage is Push) ==> t.next(
            reply,
            identity,
        ).pushed && t.stage is Competitors,
{
}

impl StageView {
    /// How many steps of opening are left at most.
    pub open spec fn steps_left(self) -> nat {
        match self {
            StageView::Idle => 93,
            StageView::Version => 92,
            StageView::Archive => 91,
            StageView::Identity => 90,
            StageView::Processes => 89,
            StageView::Competitors => 88,
            StageView::Push => 87,
            StageView::Port => 86,
            StageView::Forward => 85,
            StageView::Spawn => 84,
            StageView::Connect(n) => 2 * n as nat + 1,
            StageView::Rest(n) => 2 * n as nat + 2,
            StageView::Opened => 0,
            StageView::Failed(_) => 0,
        }
    }
}

/// Opening comes to an end: each reply that fits brings it nearer.
pub proof fn law_opening_ends(t: TransportView, reply: OpenReply, identity: Seq<char>)
    requires
        t.inv(),
    ensures
        t.next(reply, identity) == t || t.next(reply, identity).stage.steps_left()
            < t.stage.steps_left(),
{
}

impl TransportView {
    /// How many things are left to remove.
    pub open spec fn left_behind(self) -> nat {
        (if self.child {
            1nat
        } else {
            0
        }) + (if self.port is Some {
            1nat
        } else {
            0
        }) + (if self.pushed {
            1nat
        } else {
            0
        })
    }
}

/// Closing comes to an end, and then nothing is left behind: the client is stopped,
/// the port is given up and the file is removed.
pub proof fn law_closing_leaves_nothing_behind(t: TransportView)
    ensures
        t.closing().1 is Done <==> t.left_behind() == 0,
        t.closing().1 is Done ==> t.closing().0.left_behind() == 0,
        !(t.closing().1 is Done) ==> t.closing().0.left_behind() + 1 == t.left_behind(),
{
}

impl TransportView {
    /// The state after all steps of closing.
    pub open spec fn closed(self) -> TransportView
        decreases self.left_behind(),
    {
        if self.closing().1 is Done {
            self.closing().0
        } else {
            self.closing().0.closed()
        }
    }
}

/// A transport that was closed holds nothing, and closing it again does nothing.
pub proof fn law_closing_twice_is_closing_once(t: TransportView)
    ensures
        !t.closed().child,
        t.closed().port is None,
        !t.closed().pushed,
        t.closed().closing() == (t.closed(), CloseStepView::Done),
    decreases t.left_behind(),
{
    if !(t.closing().1 is Done) {
        law_closing_twice_is_closing_once(t.closing().0);
    }
}

/// A forwarded port is removed exactly where the list of forwarded ports shows it as
/// the one of this session: one line of three words names the port and this
/// session's side of it. The port of another tool stays. The list is asked for once
/// the client is stopped, of every transport that holds a port.
pub proof fn law_own_forward_is_removed(
    t: TransportView,
    port: u16,
    output: Result<Vec<u8>, &'static str>,
)
    requires
        t.inv(),
        t.port == Some(port),
    ensures
        ({
            let stopped = if t.child {
                t.closing().0
            } else {
                t
            };
            let (after, step) = stopped.closing();
            &&& t.child ==> t.closing().1 is Stop
            &&& step == (CloseStepView::List {
                port,
                call: t.adb.invocation(seq!["forward"@, "--list"@], None, 3),
            })
            &&& after.removal(port, output) == if output matches Ok(b) && owns_forward(
                text::lossy(b@),
                port,
                t.scid,
            ) {
                Some(
                    t.adb.device_call(
                        t.device.id,
                        seq!["forward"@, "--remove"@, local_side(port)],
                    ),
                )
            } else {
                None
            }
        }),
{
}

/// A transport has not been opened at first, leaves nothing behind, and has a file on
/// the phone that is named after its session.
pub proof fn law_transports_begin_idle(adb: AdbView, device: DeviceView, random: Seq<u8>)
    ensures
        ({
            let t = TransportView::new(adb, device, random);
            &&& t.adb == adb && t.device == device
            &&& t.scid == session_id(random)
            &&& t.remote == "/data/local/tmp/omaclip-"@ + t.scid + ".jar"@
            &&& t.port is None && !t.pushed && !t.child
            &&& t.stage is Idle
        }),
{
}

/// The server is started for the clipboard alone: with a control channel through the
/// forwarded port, which greets with a byte and then tells every copy made on the
/// phone, and without sound or picture. It runs from the file of this session, under
/// its id.
pub proof fn law_server_shares_the_clipboard_only(t: TransportView)
    requires
        t.inv(),
        t.stage is Spawn,
    ensures
        t.request() == (OpenRequestView::Spawn {
            program: t.adb.path,
            args: seq![
                    "-t"@,
                    t.device.id,
                    "shell"@,
                    "CLASSPATH="@ + ("/data/local/tmp/omaclip-"@ + t.scid + ".jar"@),
                    "app_process"@,
                    "/"@,
                    "com.genymobile.scrcpy.Server"@,
                    "4.1"@,
                    "scid="@ + t.scid,
                    "log_level=error"@,
                    "video=false"@,
                    "audio=false"@,
                    "control=true"@,
                    "tunnel_forward=true"@,
                    "send_dummy_byte=true"@,
                    "send_device_meta=false"@,
                    "clipboard_autosync=true"@,
                    "power_on=false"@,
                    "cleanup=true"@,
                ],
        }),
{
    assert(t.server_args() =~= seq![
                    "-t"@,
                    t.device.id,
                    "shell"@,
                    "CLASSPATH="@ + ("/data/local/tmp/omaclip-"@ + t.scid + ".jar"@),
                    "app_process"@,
                    "/"@,
                    "com.genymobile.scrcpy.Server"@,
                    "4.1"@,
                    "scid="@ + t.scid,
                    "log_level=error"@,
                    "video=false"@,
                    "audio=false"@,
                    "control=true"@,
                    "tunnel_forward=true"@,
                    "send_dummy_byte=true"@,
                    "send_device_meta=false"@,
                    "clipboard_autosync=true"@,
                    "power_on=false"@,
                    "cleanup=true"@,
                ]);
}

/// What is asked of the helper programs while a transport is opened: the version of
/// the mirror, the identity of the phone, its processes, then a copy of the server to
/// the phone and a forward of the local port to this session's server.
pub proof fn law_opening_asks_the_helpers(t: TransportView)
    requires
        t.inv(),
    ensures
        t.stage is Version ==> t.request() == OpenRequestView::Run(
            CallView {
                program: "/usr/bin/scrcpy"@,
                args: seq!["--version"@],
                input: None,
                limit: 8192,
                seconds: 5,
            },
        ),
        t.stage is Identity ==> t.request() == OpenRequestView::Run(
            CallView {
                program: t.adb.path,
                args: seq!["-t"@, t.device.id, "shell"@, "getprop"@, "ro.serialno"@],
                input: None,
                limit: 65536,
                seconds: 3,
            },
        ),
        t.stage is Competitors ==> t.request() == OpenRequestView::Run(
            CallView {
                program: t.adb.path,
                args: seq!["-t"@, t.device.id, "shell"@, "ps"@, "-A"@, "-o"@, "ARGS"@],
                input: None,
                limit: 65536,
                seconds: 3,
            },
        ),
        t.stage is Push ==> t.request() == OpenRequestView::Run(
            CallView {
                program: t.adb.path,
                args: seq![
                    "-t"@,
                    t.device.id,
                    "push"@,
                    "/usr/share/scrcpy/scrcpy-server"@,
                    "/data/local/tmp/omaclip-"@ + t.scid + ".jar"@,
                ],
                input: None,
                limit: 65536,
                seconds: 20,
            },
        ),
        t.stage is Forward ==> (t.port matches Some(p) && t.request() == OpenRequestView::Run(
            CallView {
                program: t.adb.path,
                args: seq![
                    "-t"@,
                    t.device.id,
                    "forward"@,
                    "--no-rebind"@,
                    "tcp:"@ + text::decimal_of(p as nat),
                    "localabstract:scrcpy_"@ + t.scid,
                ],
                input: None,
                limit: 65536,
                seconds: 3,
            },
        )),
        t.stage is Connect ==> (t.port matches Some(p) && t.request() == OpenRequestView::Connect(
            p,
        )),
        t.stage is Archive ==> t.request() is ReadArchive,
        t.stage is Processes ==> t.request() is ListProcesses,
        t.stage is Port ==> t.request() is ChoosePort,
        t.stage is Rest ==> t.request() is Rest,
        t.stage is Opened ==> t.request() is Opened,
        t.stage matches StageView::Failed(e) ==> t.request() == OpenRequestView::Failed(e),
{
    assert(adb::on_transport(t.device.id, seq!["shell"@, "getprop"@, "ro.serialno"@]) =~= seq![
        "-t"@,
        t.device.id,
        "shell"@,
        "getprop"@,
        "ro.serialno"@,
    ]);
    assert(adb::on_transport(t.device.id, seq!["shell"@, "ps"@, "-A"@, "-o"@, "ARGS"@]) =~= seq![
        "-t"@,
        t.device.id,
        "shell"@,
        "ps"@,
        "-A"@,
        "-o"@,
        "ARGS"@,
    ]);
    if t.stage is Forward {
        let p = t.port->0;
        assert(adb::on_transport(
            t.device.id,
            seq!["forward"@, "--no-rebind"@, local_side(p), phone_side(t.scid)],
        ) =~= seq![
            "-t"@,
            t.device.id,
            "forward"@,
            "--no-rebind"@,
            "tcp:"@ + text::decimal_of(p as nat),
            "localabstract:scrcpy_"@ + t.scid,
        ]);
    }
}

/// Opening goes one step further with each reply that shows that the step succeeded,
/// in this order, and keeps what it learns: that the server's file may be on the
/// phone, which port may be forwarded, and that the server runs. The server is reached
/// once it greets with a zero byte.
pub proof fn law_opening_goes_step_by_step(
    t: TransportView,
    output: Vec<u8>,
    archive: Archive,
    processes: Vec<Process>,
    port: u16,
    identity: Seq<char>,
)
    ensures
        t.stage is Idle ==> t.next(OpenReply::Begin, identity) == (TransportView {
            stage: StageView::Version,
            ..t
        }),
        t.stage is Version && is_supported(text::lossy(output@)) ==> t.next(
            OpenReply::Output(Ok(output)),
            identity,
        ) == (TransportView { stage: StageView::Archive, ..t }),
        t.stage is Archive && archive_error(archive) is None && adb::is_transport_id(t.device.id)
            ==> t.next(OpenReply::Archive(archive), identity) == (TransportView {
            stage: StageView::Identity,
            ..t
        }),
        t.stage is Identity && adb::identity_in(output@) == Ok::<Seq<char>, Seq<char>>(identity)
            ==> t.next(OpenReply::Output(Ok(output)), identity) == (TransportView {
            stage: StageView::Processes,
            ..t
        }),
        t.stage is Processes && !adb::has_mirror(processes@) ==> t.next(
            OpenReply::Processes(Some(processes)),
            identity,
        ) == (TransportView { stage: StageView::Competitors, ..t }),
        t.stage is Competitors && !adb::has_foreign_server(text::lossy(output@), t.scid)
            ==> t.next(OpenReply::Output(Ok(output)), identity) == (TransportView {
            pushed: true,
            stage: StageView::Push,
            ..t
        }),
        t.stage is Push ==> t.next(OpenReply::Output(Ok(output)), identity) == (TransportView {
            stage: StageView::Port,
            ..t
        }),
        t.stage is Port ==> t.next(OpenReply::Port(Some(port)), identity) == (TransportView {
            port: Some(port),
            stage: StageView::Forward,
            ..t
        }),
        t.stage is Forward ==> t.next(OpenReply::Output(Ok(output)), identity) == (TransportView {
            stage: StageView::Spawn,
            ..t
        }),
        t.stage is Spawn ==> t.next(OpenReply::Spawned(Ok(())), identity) == (TransportView {
            child: true,
            stage: StageView::Connect(40),
            ..t
        }),
        t.stage is Connect ==> t.next(OpenReply::Greeted(Some(0)), identity) == (TransportView {
            stage: StageView::Opened,
            ..t
        }),
{
}

/// Opening fails with a reason where a step failed, and nothing is forgotten by it:
/// the wrong mirror or server, a transport without an id, another phone, a mirror on
/// this machine or one that cannot be excluded, another server on the phone, a helper
/// that failed, no port, or a server that ended.
pub proof fn law_opening_fails_with_a_reason(
    t: TransportView,
    output: Vec<u8>,
    archive: Archive,
    processes: Vec<Process>,
    e: &'static str,
    identity: Seq<char>,
)
    ensures
        t.stage is Version ==> t.next(OpenReply::Output(Err(e)), identity) == (TransportView {
            stage: StageView::Failed("scrcpy is missing or cannot run; install scrcpy 4.1"@),
            ..t
        }),
        t.stage is Version && !is_supported(text::lossy(output@)) ==> t.next(
            OpenReply::Output(Ok(output)),
            identity,
        ) == (TransportView {
            stage: StageView::Failed(
                "This OmaClip release requires scrcpy 4.1; installed version is unsupported"@,
            ),
            ..t
        }),
        t.stage is Archive ==> (archive_error(archive) matches Some(f) ==> t.next(
            OpenReply::Archive(archive),
            identity,
        ) == (TransportView { stage: StageView::Failed(f), ..t })),
        t.stage is Archive && archive_error(archive) is None && !adb::is_transport_id(t.device.id)
            ==> t.next(OpenReply::Archive(archive), identity) == (TransportView {
            stage: StageView::Failed("ADB omitted transport IDs; update platform-tools"@),
            ..t
        }),
        t.stage is Identity ==> (adb::identity_in(output@) matches Ok(v) ==> v != identity ==> t.next(
            OpenReply::Output(Ok(output)),
            identity,
        ) == (TransportView {
            stage: StageView::Failed(
                "Selected endpoint identifies a different phone; select the intended phone again"@,
            ),
            ..t
        })),
        t.stage is Identity ==> (adb::identity_in(output@) matches Err(f) ==> t.next(
            OpenReply::Output(Ok(output)),
            identity,
        ) == (TransportView { stage: StageView::Failed(f), ..t })),
        t.stage is Processes ==> t.next(OpenReply::Processes(None), identity) == (TransportView {
            stage: StageView::Failed("Paused for scrcpy; close scrcpy/Android Mirror to resume"@),
            ..t
        }),
        t.stage is Processes && adb::has_mirror(processes@) ==> t.next(
            OpenReply::Processes(Some(processes)),
            identity,
        ) == t.next(OpenReply::Processes(None), identity),
        t.stage is Competitors && adb::has_foreign_server(text::lossy(output@), t.scid) ==> t.next(
            OpenReply::Output(Ok(output)),
            identity,
        ) == (TransportView {
            stage: StageView::Failed(
                "Paused for another Android scrcpy server; close its client to resume"@,
            ),
            ..t
        }),
        t.stage is Identity || t.stage is Competitors || t.stage is Push || t.stage is Forward
            ==> t.next(OpenReply::Output(Err(e)), identity) == (TransportView {
            stage: StageView::Failed(e@),
            ..t
        }),
        t.stage is Port ==> t.next(OpenReply::Port(None), identity) == (TransportView {
            stage: StageView::Failed("Cannot allocate ADB forward port"@),
            ..t
        }),
        t.stage is Spawn ==> t.next(OpenReply::Spawned(Err(e)), identity) == (TransportView {
            stage: StageView::Failed(e@),
            ..t
        }),
        t.stage is Connect ==> t.next(OpenReply::Exited, identity) == (TransportView {
            stage: StageView::Failed(
                "Android clipboard server did not start; unlock phone and check scrcpy 4.1 compatibility"@,
            ),
            ..t
        }),
{
}

/// A server that does not greet with a zero byte is tried again after a pause, one
/// time less each time; when no time is left, opening fails.
pub proof fn law_server_is_tried_again(
    t: TransportView,
    n: u8,
    byte: Option<u8>,
    identity: Seq<char>,
)
    requires
        n > 0,
        byte != Some(0u8),
    ensures
        ({
            let u = TransportView { stage: StageView::Connect(n), ..t }.next(
                OpenReply::Greeted(byte),
                identity,
            );
            &&& u == (TransportView { stage: StageView::Rest((n - 1) as u8), ..t })
            &&& u.next(OpenReply::Rested, identity) == (TransportView {
                stage: if n == 1 {
                    StageView::Failed(
                        "Android clipboard server did not start; unlock phone and check scrcpy 4.1 compatibility"@,
                    )
                } else {
                    StageView::Connect((n - 1) as u8)
                },
                ..t
            })
        }),
{
}

/// The installed server can be used exactly where it is a file of at most four
/// mebibytes that starts like an archive, and otherwise it is said what is wrong.
pub proof fn law_usable_servers(file: bool, len: u64, signature: Option<[u8; 4]>)
    ensures
        archive_error(Archive::Missing) == Some(
            "System scrcpy server missing; reinstall the scrcpy package"@,
        ),
        archive_error(Archive::Unknown) == Some("Cannot inspect system scrcpy server"@),
        archive_error(Archive::Found { file, len, signature }) is None <==> file && len <= 4194304
            && (signature matches Some(s) && s[0] == 0x50 && s[1] == 0x4b && s[2] == 0x03 && s[3]
            == 0x04),
        file && len <= 4194304 && signature is None ==> archive_error(
            Archive::Found { file, len, signature },
        ) == Some("Cannot read system scrcpy server; reinstall the scrcpy package"@),
        !file || len > 4194304 || (signature matches Some(s) && !(s[0] == 0x50 && s[1] == 0x4b
            && s[2] == 0x03 && s[3] == 0x04)) ==> archive_error(
            Archive::Found { file, len, signature },
        ) == Some("Invalid system scrcpy server; reinstall the scrcpy package"@),
{
    if let Some(s) = signature {
        if s[0] == 0x50 && s[1] == 0x4b && s[2] == 0x03 && s[3] == 0x04 {
            assert(s@ =~= zip_signature());
        } else {
            assert(s@ == zip_signature() ==> s@[0] == 80 && s@[1] == 75 && s@[2] == 3 && s@[3] == 4);
        }
    }
}

/// The mirror is supported exactly where the first two words of what it prints are its
/// name and the version 4.1.
pub proof fn law_supported_mirrors(output: Seq<char>)
    ensures
        is_supported(output) <==> text::words_of(output).len() >= 2 && text::words_of(output)[0]
            == "scrcpy"@ && text::words_of(output)[1] == "4.1"@,
{
}

/// Closing stops the client first, then gives up the port, then ends this session's
/// server on the phone, by its id, and removes its file; and each only where it is
/// there.
pub proof fn law_closing_goes_step_by_step(t: TransportView)
    requires
        t.inv(),
    ensures
        t.child ==> t.closing() == (
            TransportView { child: false, stage: StageView::Idle, ..t },
            CloseStepView::Stop,
        ),
        !t.child && t.port is Some ==> t.closing() == (
            TransportView { port: None, stage: StageView::Idle, ..t },
            CloseStepView::List {
                port: t.port->0,
                call: CallView {
                    program: t.adb.path,
                    args: seq!["forward"@, "--list"@],
                    input: None,
                    limit: 65536,
                    seconds: 3,
                },
            },
        ),
        !t.child && t.port is None && t.pushed ==> t.closing() == (
            TransportView { pushed: false, stage: StageView::Idle, ..t },
            CloseStepView::Clean(
                CallView {
                    program: t.adb.path,
                    args: seq![
                        "-t"@,
                        t.device.id,
                        "shell"@,
                        "scid="@ + t.scid
                            + "; needle=\"com.genymobile.scrcpy.Server 4.1 scid=$scid\"; ps -A -o PID,ARGS | while read -r pid args; do case \" $args \" in *\" $needle \"*) kill \"$pid\";; esac; done; rm -f "@
                            + ("/data/local/tmp/omaclip-"@ + t.scid + ".jar"@),
                    ],
                    input: None,
                    limit: 65536,
                    seconds: 3,
                },
            ),
        ),
        !t.child && t.port is None && !t.pushed ==> t.closing() == (
            TransportView { stage: StageView::Idle, ..t },
            CloseStepView::Done,
        ),
{
    let args = seq!["shell"@, cleanup_script(t.scid, t.remote)];
    assert(adb::on_transport(t.device.id, args) =~= seq!["-t"@, t.device.id] + args);
    assert(adb::on_transport(t.device.id, args) =~= seq![
        "-t"@,
        t.device.id,
        "shell"@,
        cleanup_script(t.scid, t.remote),
    ]);
}

/// A line of the list of forwarded ports is this session's where it has three words,
/// the second names the port and the third this session.
pub proof fn law_own_forwards(list: Seq<char>, line: Seq<char>, port: u16, scid: Seq<char>)
    ensures
        is_own_forward(line, port, scid) <==> text::words_of(line).len() == 3 && text::words_of(
            line,
        )[1] == "tcp:"@ + text::decimal_of(port as nat) && text::words_of(line)[2]
            == "localabstract:scrcpy_"@ + scid,
        is_own_forward(line, port, scid) && text::split_at_char(list, '\n').contains(line)
            ==> owns_forward(list, port, scid),
        owns_forward(list, port, scid) ==> exists|l: Seq<char>|
            text::split_at_char(list, '\n').contains(l) && #[trigger] is_own_forward(l, port, scid),
{
    let lines = text::split_at_char(list, '\n');
    if lines.contains(line) {
        let i = choose|i: int| 0 <= i < lines.len() && lines[i] == line;
        assert(lines[i] == line);
    }
    if owns_forward(list, port, scid) {
        let i = choose|i: int| 0 <= i < lines.len() && is_own_forward(#[trigger] lines[i], port, scid);
        assert(lines.contains(lines[i]));
    }
}

/// The forward of this session is removed by this command.
pub proof fn law_removal_of_a_forward(
    t: TransportView,
    port: u16,
    output: Result<Vec<u8>, &'static str>,
)
    ensures
        t.removal(port, output) matches Some(c) ==> c == (CallView {
            program: t.adb.path,
            args: seq![
                "-t"@,
                t.device.id,
                "forward"@,
                "--remove"@,
                "tcp:"@ + text::decimal_of(port as nat),
            ],
            input: None,
            limit: 65536,
            seconds: 3,
        }),
{
    assert(adb::on_transport(t.device.id, seq!["forward"@, "--remove"@, local_side(port)])
        =~= seq![
        "-t"@,
        t.device.id,
        "forward"@,
        "--remove"@,
        "tcp:"@ + text::decimal_of(port as nat),
    ]);
}

/// A reply that does not fit the step changes nothing.
pub proof fn law_other_replies_change_nothing(
    t: TransportView,
    reply: OpenReply,
    identity: Seq<char>,
)
    requires
        match t.stage {
            StageView::Idle => !(reply is Begin),
            StageView::Version => !(reply is Output),
            StageView::Archive => !(reply is Archive),
            StageView::Identity => !(reply is Output),
            StageView::Processes => !(reply is Processes),
            StageView::Competitors => !(reply is Output),
            StageView::Push => !(reply is Output),
            StageView::Port => !(reply is Port),
            StageView::Forward => !(reply is Output),
            StageView::Spawn => !(reply is Spawned),
            StageView::Connect(_) => !(reply is Exited) && !(reply is Greeted),
            StageView::Rest(_) => !(reply is Rested),
            StageView::Opened => true,
            StageView::Failed(_) => true,
        },
    ensures
        t.next(reply, identity) == t,
{
}

} // verus!
