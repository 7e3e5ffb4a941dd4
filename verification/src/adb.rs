//! Android Debug Bridge: device lists, endpoints and helper invocations.
use crate::address;
use crate::bytes;
use crate::devices;
use crate::process::{Call, CallView};
use crate::text;
use vstd::prelude::*;
use vstd::string::StrSliceExecFns;
use vstd::string::StringExecFns;
use vstd::utf8::*;

pub use crate::devices::{group, parse_devices, Device};
pub use crate::identities::Identities;
pub use crate::tracking::Tracker;

verus! {

// ---------------------------------------------------------------------------
// Endpoints
// ---------------------------------------------------------------------------
/// Whether `c` may stand in a host name.
pub open spec fn is_host_char(c: char) -> bool {
    text::is_alnum(c) || c == '.' || c == '-'
}

/// Whether `host` is a host name, or an IPv6 address in brackets.
pub open spec fn good_host(host: Seq<char>) -> bool {
    if host.len() > 0 && host[0] == '[' && host.last() == ']' {
        address::ipv6_of(host.subrange(1, host.len() - 1)) is Some
    } else {
        &&& 1 <= host.len() <= 253
        &&& text::is_alnum(host[0])
        &&& forall|i: int| 0 <= i < host.len() ==> is_host_char(#[trigger] host[i])
    }
}

/// Whether `port` is a port number other than 0.
pub open spec fn good_port(port: Seq<char>) -> bool {
    text::number_of(port, 10) matches Some(v) && 1 <= v <= 65535
}

/// Whether `value`, but for white space around it, is a host and a port.
pub open spec fn is_endpoint(value: Seq<char>) -> bool {
    text::around_last(text::trim_of(value), ':') matches Some((host, port)) && good_host(host)
        && good_port(port)
}

/// Why `value` is no endpoint.
pub open spec fn endpoint_error(value: Seq<char>) -> Seq<char> {
    if text::around_last(text::trim_of(value), ':') is None {
        "Use host:port or [IPv6]:port; pairing and connection ports differ"@
    } else {
        "Use a valid host and explicit port; pairing and connection ports differ"@
    }
}

fn is_good_host(host: &str) -> (r: bool)
    ensures
        r == good_host(host@),
{
    let cs = text::chars(host);
    let n = cs.len();
    if n > 0 && cs[0] == '[' && cs[n - 1] == ']' {
        return address::ipv6(host.substring_char(1, n - 1)).is_some();
    }
    if n == 0 || n > 253 || !text::alnum(cs[0]) {
        return false;
    }
    let mut i: usize = 0;
    while i < n
        invariant
            i <= n,
            n == cs@.len(),
            1 <= n <= 253,
            cs@ == host@,
            text::is_alnum(host@[0]),
            forall|j: int| 0 <= j < i ==> is_host_char(#[trigger] host@[j]),
        decreases n - i,
    {
        let c = cs[i];
        if !(text::alnum(c) || c == '.' || c == '-') {
            assert(!is_host_char(host@[i as int]));
            return false;
        }
        i += 1;
    }
    true
}

/// The endpoint that `value` names, without white space around it.
pub fn endpoint(value: &str) -> (r: Result<&str, &'static str>)
    ensures
        match r {
            Ok(t) => is_endpoint(value@) && t@ == text::trim_of(value@),
            Err(e) => !is_endpoint(value@) && e@ == endpoint_error(value@),
        },
{
    let value = text::trim(value);
    match text::rsplit_once(value, ':') {
        None => Err("Use host:port or [IPv6]:port; pairing and connection ports differ"),
        Some((host, port)) => {
            let good = match text::number(port, 10, 65535) {
                Some(v) => v != 0,
                None => false,
            };
            if !is_good_host(host) || !good {
                Err("Use a valid host and explicit port; pairing and connection ports differ")
            } else {
                Ok(value)
            }
        },
    }
}

// ---------------------------------------------------------------------------
// The server and its helper
// ---------------------------------------------------------------------------
/// The helper program and the server's address.
#[derive(Debug)]
pub struct Adb {
    pub path: String,
    pub socket: String,
}

/// What an [`Adb`] holds.
pub struct AdbView {
    pub path: Seq<char>,
    pub socket: Seq<char>,
}

impl View for Adb {
    type V = AdbView;

    open spec fn view(&self) -> AdbView {
        AdbView { path: self.path@, socket: self.socket@ }
    }
}

impl Clone for Adb {
    fn clone(&self) -> (r: Self)
        ensures
            r@ == self@,
    {
        Adb { path: self.path.clone(), socket: self.socket.clone() }
    }
}

/// What the process environment says of the bridge.
pub struct Environment {
    /// A file `adb` stands in a directory of the search path.
    pub on_path: bool,
    /// The home directory.
    pub home: Option<String>,
    /// The variable `ADB_SERVER_SOCKET`.
    pub server_socket: Option<String>,
    /// The variable `ANDROID_ADB_SERVER_PORT`.
    pub server_port: Option<String>,
}

/// The text in `v`, or `default`.
pub open spec fn text_or(v: Option<String>, default: Seq<char>) -> Seq<char> {
    match v {
        Some(s) => s@,
        None => default,
    }
}

/// The program to run: the given one, else `adb` on the search path, else the one
/// of the SDK in the home directory.
pub open spec fn program_of(path: Seq<char>, env: Environment) -> Seq<char> {
    if path.len() > 0 {
        path
    } else if env.on_path {
        "adb"@
    } else {
        text_or(env.home, Seq::empty()) + "/Android/Sdk/platform-tools/adb"@
    }
}

/// The smart socket of the server.
pub open spec fn smart_socket(env: Environment) -> Seq<char> {
    text_or(env.server_socket, "tcp:localhost:"@ + text_or(env.server_port, "5037"@))
}

/// The host and port of a TCP smart socket's address, which may be a port alone.
pub open spec fn with_host(address: Seq<char>) -> Seq<char> {
    if address.contains(':') {
        address
    } else {
        "localhost:"@ + address
    }
}

/// Whether the host of `socket` is this machine.
pub open spec fn is_local(socket: Seq<char>) -> bool {
    text::around_last(socket, ':') matches Some((host, _)) && {
        let bare = text::trim_end_by(
            text::trim_start_by(host, text::brackets()),
            text::brackets(),
        );
        bare == "localhost"@ || address::is_loopback(bare)
    }
}

/// The server's address, or why the environment gives none that can be used.
pub open spec fn server_of(env: Environment) -> Result<Seq<char>, Seq<char>> {
    match text::strip(smart_socket(env), "tcp:"@) {
        None => Err("ADB_SERVER_SOCKET must be a local TCP smart socket"@),
        Some(address) => {
            let socket = with_host(address);
            if !is_endpoint(socket) {
                Err(endpoint_error(socket))
            } else if !is_local(socket) {
                Err("Remote ADB servers are unsupported; use a loopback ADB_SERVER_SOCKET"@)
            } else {
                Ok(socket)
            }
        },
    }
}

/// The most bytes that are read of the helper's output.
pub const OUTPUT_LIMIT: usize = 65536;

/// The words that select one transport, before `args`.
pub open spec fn on_transport(id: Seq<char>, args: Seq<Seq<char>>) -> Seq<Seq<char>> {
    seq!["-t"@, id] + args
}

/// Whether `id` is a transport id.
pub open spec fn is_transport_id(id: Seq<char>) -> bool {
    id.len() > 0 && text::all_digits(id)
}

impl AdbView {
    /// The helper run with `args`.
    pub open spec fn invocation(
        self,
        args: Seq<Seq<char>>,
        input: Option<Seq<u8>>,
        seconds: u64,
    ) -> CallView {
        CallView { program: self.path, args, input, limit: OUTPUT_LIMIT, seconds }
    }

    /// What connects to the phone at `address`, or why nothing does.
    pub open spec fn connect_request(self, address: Seq<char>) -> Result<CallView, Seq<char>> {
        if !is_endpoint(address) {
            Err(endpoint_error(address))
        } else {
            Ok(self.invocation(seq!["connect"@, text::trim_of(address)], None, 15))
        }
    }

    /// What pairs with the phone at `address`, or why nothing does. The helper reads
    /// the secret.
    pub open spec fn pair_request(
        self,
        address: Seq<char>,
        secret: Seq<char>,
        qr: bool,
    ) -> Result<CallView, Seq<char>> {
        if !good_secret(secret, qr) {
            Err("Invalid pairing code; generate a new code on the phone"@)
        } else if !is_endpoint(address) {
            Err(endpoint_error(address))
        } else {
            Ok(
                self.invocation(
                    seq!["pair"@, text::trim_of(address)],
                    Some(encode_utf8(secret + "\n"@)),
                    30,
                ),
            )
        }
    }

    /// The helper run on the transport `id`.
    pub open spec fn device_call(self, id: Seq<char>, args: Seq<Seq<char>>) -> CallView {
        self.invocation(on_transport(id, args), None, 3)
    }
}

/// The error where the server gave no transport id.
pub open spec fn no_transport_id() -> Seq<char> {
    "ADB omitted transport IDs; update platform-tools"@
}

impl Adb {
    /// The bridge that `path` and the environment select.
    pub fn new(path: String, env: &Environment) -> (r: Result<Adb, &'static str>)
        ensures
            match r {
                Ok(a) => server_of(*env) == Ok::<Seq<char>, Seq<char>>(a@.socket) && a@.path
                    == program_of(path@, *env),
                Err(e) => server_of(*env) == Err::<Seq<char>, Seq<char>>(e@),
            },
    {
        let path = if !path.as_str().is_empty() {
            path
        } else if env.on_path {
            "adb".to_owned()
        } else {
            let mut p = match &env.home {
                Some(h) => h.clone(),
                None => String::new(),
            };
            p.append("/Android/Sdk/platform-tools/adb");
            p
        };
        let setting = match &env.server_socket {
            Some(s) => s.clone(),
            None => {
                let mut s = "tcp:localhost:".to_owned();
                match &env.server_port {
                    Some(p) => {
                        s.append(p);
                    },
                    None => {
                        s.append("5037");
                    },
                }
                s
            },
        };
        let address = match text::strip_prefix(&setting, "tcp:") {
            Some(a) => a,
            None => {
                return Err("ADB_SERVER_SOCKET must be a local TCP smart socket");
            },
        };
        let socket = if text::has_char(address, ':') {
            address.to_owned()
        } else {
            let mut s = "localhost:".to_owned();
            s.append(address);
            s
        };
        match endpoint(&socket) {
            Ok(_) => {},
            Err(e) => {
                return Err(e);
            },
        }
        let local = match text::rsplit_once(&socket, ':') {
            Some((host, _)) => {
                let bare = text::trim_end(
                    text::trim_start(host, text::Class::Bracket),
                    text::Class::Bracket,
                );
                text::same(bare, "localhost") || address::loopback(bare)
            },
            None => false,
        };
        if !local {
            return Err("Remote ADB servers are unsupported; use a loopback ADB_SERVER_SOCKET");
        }
        Ok(Adb { path, socket })
    }

    /// The helper run with `args`.
    pub fn call(&self, args: &[&str], input: Option<&[u8]>, seconds: u64) -> (r: Call)
        ensures
            r@ == self@.invocation(
                args.deep_view(),
                match input {
                    Some(b) => Some(b@),
                    None => None,
                },
                seconds,
            ),
    {
        Call {
            program: self.path.clone(),
            args: text::own_all(args),
            input: match input {
                Some(b) => Some(vstd::slice::slice_to_vec(b)),
                None => None,
            },
            limit: OUTPUT_LIMIT,
            seconds,
        }
    }

    /// The helper run on the transport `id`.
    pub fn device(&self, id: &str, args: &[&str]) -> (r: Result<Call, &'static str>)
        ensures
            match r {
                Ok(c) => is_transport_id(id@) && c@ == self@.device_call(id@, args.deep_view()),
                Err(e) => !is_transport_id(id@) && e@ == no_transport_id(),
            },
    {
        if id.is_empty() || !text::digits_only(id) {
            return Err("ADB omitted transport IDs; update platform-tools");
        }
        let mut all: Vec<String> = Vec::new();
        all.push("-t".to_owned());
        all.push(id.to_owned());
        let mut rest = text::own_all(args);
        let ghost head = all.deep_view();
        let ghost tail = rest.deep_view();
        all.append(&mut rest);
        assert(all.deep_view() == head + tail);
        assert(head == seq!["-t"@, id@]);
        Ok(
            Call {
                program: self.path.clone(),
                args: all,
                input: None,
                limit: OUTPUT_LIMIT,
                seconds: 3,
            },
        )
    }

    /// Asks the phone on the transport `id` for its serial number.
    pub fn identity(&self, id: &str) -> (r: Result<Call, &'static str>)
        ensures
            match r {
                Ok(c) => is_transport_id(id@) && c@ == self@.device_call(
                    id@,
                    seq!["shell"@, "getprop"@, "ro.serialno"@],
                ),
                Err(e) => !is_transport_id(id@) && e@ == no_transport_id(),
            },
    {
        let args = ["shell", "getprop", "ro.serialno"];
        assert(args.deep_view() == seq!["shell"@, "getprop"@, "ro.serialno"@]);
        self.device(id, &args)
    }

    /// Lists the processes on the phone, unless a mirror of this user runs on this
    /// machine (`local`).
    pub fn competitors(&self, id: &str, local: bool) -> (r: Result<Call, &'static str>)
        ensures
            match r {
                Ok(c) => !local && is_transport_id(id@) && c@ == self@.device_call(
                    id@,
                    seq!["shell"@, "ps"@, "-A"@, "-o"@, "ARGS"@],
                ),
                Err(e) => if local {
                    e@ == "Paused for scrcpy; close scrcpy/Android Mirror to resume"@
                } else {
                    !is_transport_id(id@) && e@ == no_transport_id()
                },
            },
    {
        if local {
            return Err("Paused for scrcpy; close scrcpy/Android Mirror to resume");
        }
        let args = ["shell", "ps", "-A", "-o", "ARGS"];
        assert(args.deep_view() == seq!["shell"@, "ps"@, "-A"@, "-o"@, "ARGS"@]);
        self.device(id, &args)
    }

    /// Connects to the phone at `address`.
    pub fn connect(&self, address: &str) -> (r: Result<Call, &'static str>)
        ensures
            match r {
                Ok(c) => self@.connect_request(address@) == Ok::<CallView, Seq<char>>(c@),
                Err(e) => self@.connect_request(address@) == Err::<CallView, Seq<char>>(e@),
            },
    {
        match endpoint(address) {
            Ok(target) => {
                let args = ["connect", target];
                assert(args.deep_view() == seq!["connect"@, target@]);
                Ok(self.call(&args, None, 15))
            },
            Err(e) => Err(e),
        }
    }

    /// Pairs with the phone at `address`; the helper reads the secret.
    pub fn pair(&self, address: &str, secret: &str, qr: bool) -> (r: Result<Call, &'static str>)
        ensures
            match r {
                Ok(c) => self@.pair_request(address@, secret@, qr) == Ok::<CallView, Seq<char>>(
                    c@,
                ),
                Err(e) => self@.pair_request(address@, secret@, qr) == Err::<CallView, Seq<char>>(
                    e@,
                ),
            },
    {
        let n = secret.unicode_len();
        let valid = if qr {
            20 <= n && n <= 64 && text::alnum_only(secret)
        } else {
            n == 6 && text::digits_only(secret)
        };
        if !valid {
            return Err("Invalid pairing code; generate a new code on the phone");
        }
        match endpoint(address) {
            Ok(target) => {
                let mut input = secret.to_owned();
                input.append("\n");
                let args = ["pair", target];
                assert(args.deep_view() == seq!["pair"@, target@]);
                Ok(self.call(&args, Some(input.as_str().as_bytes()), 30))
            },
            Err(e) => Err(e),
        }
    }
}

/// Whether `secret` can be a pairing secret: 20 to 64 letters and digits in a QR
/// code, six digits as a code typed by hand.
pub open spec fn good_secret(secret: Seq<char>, qr: bool) -> bool {
    if qr {
        20 <= secret.len() <= 64 && text::all_alnum(secret)
    } else {
        secret.len() == 6 && text::all_digits(secret)
    }
}

// ---------------------------------------------------------------------------
// What the helper answers
// ---------------------------------------------------------------------------
/// Whether `value` tells phones apart.
pub open spec fn is_identity(value: Seq<char>) -> bool {
    &&& value.len() > 0
    &&& !text::same_ignoring_case(value, "unknown"@)
    &&& text::byte_len(value) <= 256
}

/// The identity in the answer to [`Adb::identity`], or why there is none.
pub open spec fn identity_in(output: Seq<u8>) -> Result<Seq<char>, Seq<char>> {
    if !valid_utf8(output) {
        Err("Invalid phone identity"@)
    } else if !is_identity(text::trim_of(decode_utf8(output))) {
        Err("Phone exposes no stable ro.serialno; cannot safely reconnect"@)
    } else {
        Ok(text::trim_of(decode_utf8(output)))
    }
}

/// The identity in the answer to [`Adb::identity`].
pub fn identity_of(output: &[u8]) -> (r: Result<String, &'static str>)
    ensures
        match r {
            Ok(v) => identity_in(output@) == Ok::<Seq<char>, Seq<char>>(v@),
            Err(e) => identity_in(output@) == Err::<Seq<char>, Seq<char>>(e@),
        },
{
    match text::utf8(output) {
        None => Err("Invalid phone identity"),
        Some(s) => {
            let value = text::trim(s);
            if value.is_empty() || text::equal_ignoring_case(value, "unknown") || text::bytes_in(
                value,
            ) > 256 {
                Err("Phone exposes no stable ro.serialno; cannot safely reconnect")
            } else {
                Ok(value.to_owned())
            }
        },
    }
}

/// Whether the answer to [`Adb::connect`] reports a connection.
pub open spec fn is_connected_answer(output: Seq<u8>) -> bool {
    ||| bytes::some_line_starts(output, encode_utf8("connected to "@))
    ||| bytes::some_line_starts(output, encode_utf8("already connected to "@))
}

/// The error where the answer to [`Adb::connect`] reports none.
pub open spec fn not_connected() -> Seq<char> {
    "Connection failed; use the main Wireless debugging connection port, not the pairing port"@
}

/// Judges the answer to [`Adb::connect`].
pub fn connect_result(output: &[u8]) -> (r: Result<(), &'static str>)
    ensures
        r is Ok <==> is_connected_answer(output@),
        r matches Err(e) ==> e@ == not_connected(),
{
    if bytes::line_with(output, "connected to ".as_bytes()) || bytes::line_with(
        output,
        "already connected to ".as_bytes(),
    ) {
        Ok(())
    } else {
        Err(
            "Connection failed; use the main Wireless debugging connection port, not the pairing port",
        )
    }
}

/// Whether `c` may stand in a service identifier.
pub open spec fn is_guid_char(c: char) -> bool {
    text::is_alnum(c) || c == '_' || c == '.' || c == '-'
}

/// Whether `guid` can be a service identifier.
pub open spec fn is_guid(guid: Seq<char>) -> bool {
    guid.len() <= 256 && forall|i: int| 0 <= i < guid.len() ==> is_guid_char(#[trigger] guid[i])
}

/// The service identifier that a pairing answer gives in `[guid=...]`; empty where
/// it gives none that can be one.
pub open spec fn guid_in(answer: Seq<char>) -> Seq<char> {
    match text::after_first(answer, "[guid="@) {
        Some(rest) => match text::find_at(rest, "]"@) {
            Some(i) => if is_guid(rest.take(i)) {
                rest.take(i)
            } else {
                Seq::empty()
            },
            None => Seq::empty(),
        },
        None => Seq::empty(),
    }
}

fn guid_only(s: &str) -> (r: bool)
    ensures
        r == is_guid(s@),
{
    let cs = text::chars(s);
    if cs.len() > 256 {
        return false;
    }
    let mut i: usize = 0;
    while i < cs.len()
        invariant
            i <= cs@.len(),
            cs@.len() <= 256,
            cs@ == s@,
            forall|j: int| 0 <= j < i ==> is_guid_char(#[trigger] s@[j]),
        decreases cs@.len() - i,
    {
        let c = cs[i];
        if !(text::alnum(c) || c == '_' || c == '.' || c == '-') {
            assert(!is_guid_char(s@[i as int]));
            return false;
        }
        i += 1;
    }
    true
}

/// The service identifier of the phone that a pairing answer reports, or why there
/// is none.
pub open spec fn paired_in(answer: Seq<char>) -> Result<Seq<char>, Seq<char>> {
    if text::occurs(answer, "Successfully paired"@) {
        Ok(guid_in(answer))
    } else {
        Err("Pairing failed; generate a new QR/code and check the pairing port"@)
    }
}

/// The service identifier of the phone that a pairing answer reports.
pub fn paired(answer: &str) -> (r: Result<String, &'static str>)
    ensures
        match r {
            Ok(guid) => paired_in(answer@) == Ok::<Seq<char>, Seq<char>>(guid@),
            Err(e) => paired_in(answer@) == Err::<Seq<char>, Seq<char>>(e@),
        },
{
    if !text::contains(answer, "Successfully paired") {
        return Err("Pairing failed; generate a new QR/code and check the pairing port");
    }
    match text::after(answer, "[guid=") {
        Some(rest) => match text::find(rest, "]") {
            Some(i) => {
                let guid = text::before(rest, "]");
                if guid_only(guid) {
                    Ok(guid.to_owned())
                } else {
                    Ok(String::new())
                }
            },
            None => Ok(String::new()),
        },
        None => Ok(String::new()),
    }
}

/// Judges the answer to [`Adb::pair`].
pub fn pair_result(output: &[u8]) -> (r: Result<String, &'static str>)
    ensures
        match r {
            Ok(guid) => paired_in(text::lossy(output@)) == Ok::<Seq<char>, Seq<char>>(guid@),
            Err(e) => paired_in(text::lossy(output@)) == Err::<Seq<char>, Seq<char>>(e@),
        },
{
    paired(&text::utf8_lossy(output))
}

// ---------------------------------------------------------------------------
// Competing mirrors
// ---------------------------------------------------------------------------
/// A process on this machine.
pub struct Process {
    /// Its name in the process table.
    pub name: String,
    /// It runs as this user.
    pub own: bool,
    /// Its command line, where it can be read.
    pub cmdline: Option<Vec<u8>>,
}

/// Whether a command line runs a mirror: the file name of its first word.
pub open spec fn runs_scrcpy(cmdline: Seq<u8>) -> bool {
    let program = bytes::after_last(bytes::before_first(cmdline, 0), 47);
    program == encode_utf8("scrcpy"@) || program == encode_utf8("scrcpy.exe"@)
}

impl Process {
    /// Whether the process is a mirror that this user runs.
    pub open spec fn is_mirror(self) -> bool {
        &&& text::all_digits(self.name@)
        &&& self.own
        &&& self.cmdline matches Some(c) && runs_scrcpy(c@)
    }

    /// Whether the process is a mirror that this user runs.
    pub fn mirrors(&self) -> (r: bool)
        ensures
            r == self.is_mirror(),
    {
        if !text::digits_only(&self.name) || !self.own {
            return false;
        }
        match &self.cmdline {
            Some(c) => {
                let program = bytes::after(bytes::before(c, 0), 47);
                bytes::same(program, "scrcpy".as_bytes()) || bytes::same(
                    program,
                    "scrcpy.exe".as_bytes(),
                )
            },
            None => false,
        }
    }
}

/// Whether one of the processes is a mirror that this user runs.
pub open spec fn has_mirror(processes: Seq<Process>) -> bool {
    exists|i: int| 0 <= i < processes.len() && (#[trigger] processes[i]).is_mirror()
}

fn some_mirrors(processes: &Vec<Process>) -> (r: bool)
    ensures
        r == has_mirror(processes@),
{
    let mut i: usize = 0;
    while i < processes.len()
        invariant
            i <= processes@.len(),
            forall|j: int| 0 <= j < i ==> !(#[trigger] processes@[j]).is_mirror(),
        decreases processes@.len() - i,
    {
        if processes[i].mirrors() {
            assert(processes@[i as int].is_mirror());
            return true;
        }
        i += 1;
    }
    false
}

/// Whether this user mirrors a phone on this machine. A process table that cannot
/// be read counts as one that holds a mirror.
pub open spec fn is_mirroring(processes: Option<Seq<Process>>) -> bool {
    match processes {
        Some(p) => has_mirror(p),
        None => true,
    }
}

/// Whether this user mirrors a phone on this machine.
pub fn local_scrcpy(processes: &Option<Vec<Process>>) -> (r: bool)
    ensures
        r == is_mirroring(
            match processes {
                Some(p) => Some(p@),
                None => None,
            },
        ),
{
    match processes {
        None => true,
        Some(p) => some_mirrors(p),
    }
}

/// Whether a line of the phone's process list is a mirror server other than the
/// one with the session id `own`. An empty `own` is no server's.
pub open spec fn is_foreign_server(line: Seq<char>, own: Seq<char>) -> bool {
    &&& text::occurs(line, "com.genymobile.scrcpy.Server"@)
    &&& own.len() == 0 || !text::words_of(line).contains("scid="@ + own)
}

/// Whether some line of the phone's process list is a foreign mirror server.
pub open spec fn has_foreign_server(raw: Seq<char>, own: Seq<char>) -> bool {
    exists|i: int|
        0 <= i < text::split_at_char(raw, '\n').len() && is_foreign_server(
            #[trigger] text::split_at_char(raw, '\n')[i],
            own,
        )
}

/// Whether one of the words is the server's own session id.
fn has_own_id(words: &Vec<String>, own: &str) -> (r: bool)
    ensures
        r == words.deep_view().contains("scid="@ + own@),
{
    let mut id = "scid=".to_owned();
    id.append(own);
    let ghost w = words.deep_view();
    let mut i: usize = 0;
    while i < words.len()
        invariant
            i <= words@.len(),
            w == words.deep_view(),
            id@ == "scid="@ + own@,
            forall|j: int| 0 <= j < i ==> w[j] != id@,
        decreases words@.len() - i,
    {
        assert(w[i as int] == words@[i as int]@);
        if text::same(&words[i], &id) {
            return true;
        }
        i += 1;
    }
    false
}

/// Whether the phone's process list holds a mirror server other than `own`.
pub fn other_server(raw: &str, own: &str) -> (r: bool)
    ensures
        r == has_foreign_server(raw@, own@),
{
    let lines = text::split(raw, '\n');
    let ghost w = text::split_at_char(raw@, '\n');
    let mut i: usize = 0;
    while i < lines.len()
        invariant
            i <= lines@.len(),
            w == text::split_at_char(raw@, '\n'),
            lines.deep_view() == w,
            forall|j: int| 0 <= j < i ==> !is_foreign_server(#[trigger] w[j], own@),
        decreases lines@.len() - i,
    {
        assert(w[i as int] == lines@[i as int]@);
        if text::contains(&lines[i], "com.genymobile.scrcpy.Server") && (own.is_empty()
            || !has_own_id(&text::words(&lines[i]), own)) {
            return true;
        }
        i += 1;
    }
    false
}

/// Judges the answer to [`Adb::competitors`].
pub fn competitors_result(output: &[u8], own: &str) -> (r: Result<(), &'static str>)
    ensures
        r is Ok <==> !has_foreign_server(text::lossy(output@), own@),
        r matches Err(e) ==> e@
            == "Paused for another Android scrcpy server; close its client to resume"@,
{
    if other_server(&text::utf8_lossy(output), own) {
        Err("Paused for another Android scrcpy server; close its client to resume")
    } else {
        Ok(())
    }
}

// ---------------------------------------------------------------------------
// Tracking frames
// ---------------------------------------------------------------------------
/// The length that the four bytes of a frame header give.
pub open spec fn length_in(header: Seq<u8>) -> Option<nat> {
    if valid_utf8(header) {
        text::number_of(decode_utf8(header), 16)
    } else {
        None
    }
}

proof fn lemma_decode_len(b: Seq<u8>)
    requires
        valid_utf8(b),
    ensures
        decode_utf8(b).len() <= b.len(),
    decreases b.len(),
{
    if b.len() > 0 {
        lemma_decode_len(pop_first_scalar(b));
    }
}

proof fn lemma_four_digits(s: Seq<char>)
    requires
        s.len() <= 4,
    ensures
        text::digits_value(s, 16) matches Some(v) ==> v < 0x10000,
{
    reveal_with_fuel(text::digits_value, 5);
}

/// The length that a frame header gives.
pub fn frame_length(header: &[u8; 4]) -> (r: Result<usize, &'static str>)
    ensures
        match r {
            Ok(n) => length_in(header@) == Some(n as nat) && n <= 0xffff,
            Err(e) => length_in(header@) is None && e@ == "Invalid ADB tracking frame"@,
        },
{
    match text::utf8(header) {
        None => Err("Invalid ADB tracking frame"),
        Some(s) => {
            proof {
                lemma_decode_len(header@);
                lemma_four_digits(s@);
                lemma_four_digits(s@.drop_first());
            }
            match text::number(s, 16, 0xffff) {
                Some(n) => Ok(n as usize),
                None => Err("Invalid ADB tracking frame"),
            }
        },
    }
}

/// The devices in a body of the length `n` that `s` starts with, or why there are
/// none, when nothing follows `s`.
pub open spec fn body_in(s: Seq<u8>, n: nat) -> Result<Seq<devices::DeviceView>, Seq<char>> {
    if s.len() < n {
        Err("Truncated ADB tracking frame"@)
    } else if !valid_utf8(s.take(n as int)) {
        Err("Invalid ADB device list"@)
    } else {
        Ok(devices::devices_in(decode_utf8(s.take(n as int))))
    }
}

/// The devices in the first frame of `input`, or why there are none, when nothing
/// follows `input`.
pub open spec fn frame_in(input: Seq<u8>) -> Result<Seq<devices::DeviceView>, Seq<char>> {
    if input.len() < 4 {
        Err("ADB tracking disconnected; restarting discovery"@)
    } else {
        match length_in(input.take(4)) {
            None => Err("Invalid ADB tracking frame"@),
            Some(n) => body_in(input.skip(4), n),
        }
    }
}

/// What comes next of a frame.
#[derive(Clone, Copy)]
pub enum FramePart {
    /// Its length.
    Header,
    /// A body of this length.
    Body(usize),
}

/// What reading a part of a frame leads to.
pub enum FrameProgress {
    /// More is to be read.
    More(FramePart),
    /// The frame is complete.
    Done(Vec<Device>),
}

impl FramePart {
    /// How many bytes are read next.
    pub open spec fn next_len(self) -> nat {
        match self {
            FramePart::Header => 4,
            FramePart::Body(n) => n as nat,
        }
    }

    /// What it means that fewer bytes come.
    pub open spec fn truncation(self) -> Seq<char> {
        match self {
            FramePart::Header => "ADB tracking disconnected; restarting discovery"@,
            FramePart::Body(_) => "Truncated ADB tracking frame"@,
        }
    }

    /// How many parts are left to read.
    pub open spec fn parts_left(self) -> nat {
        match self {
            FramePart::Header => 2,
            FramePart::Body(_) => 1,
        }
    }

    /// The devices in the frame that the rest `s` of the stream completes, or why
    /// there are none, when nothing follows `s`.
    pub open spec fn rest(self, s: Seq<u8>) -> Result<Seq<devices::DeviceView>, Seq<char>> {
        match self {
            FramePart::Header => frame_in(s),
            FramePart::Body(n) => body_in(s, n as nat),
        }
    }

    /// How many bytes are to be read next.
    pub fn wants(&self) -> (r: usize)
        ensures
            r == self.next_len(),
    {
        match self {
            FramePart::Header => 4,
            FramePart::Body(n) => *n,
        }
    }

    /// What it means that fewer bytes came.
    pub fn truncated(&self) -> (r: &'static str)
        ensures
            r@ == self.truncation(),
    {
        match self {
            FramePart::Header => "ADB tracking disconnected; restarting discovery",
            FramePart::Body(_) => "Truncated ADB tracking frame",
        }
    }

    /// Takes the bytes that were read.
    pub fn supply(&self, part: &[u8]) -> (r: Result<FrameProgress, &'static str>)
        requires
            part@.len() == self.next_len(),
        ensures
            forall|after: Seq<u8>|
                #![trigger part@ + after]
                match r {
                    Ok(FrameProgress::More(next)) => self.rest(part@ + after) == next.rest(after),
                    Ok(FrameProgress::Done(ds)) => self.rest(part@ + after) == Ok::<
                        Seq<devices::DeviceView>,
                        Seq<char>,
                    >(ds.deep_view()),
                    Err(e) => self.rest(part@ + after) == Err::<
                        Seq<devices::DeviceView>,
                        Seq<char>,
                    >(e@),
                },
            r matches Ok(FrameProgress::More(next)) ==> next.parts_left() < self.parts_left(),
    {
        proof {
            assert forall|after: Seq<u8>| #![trigger part@ + after] (part@ + after).take(
                part@.len() as int,
            ) == part@ && (part@ + after).skip(part@.len() as int) == after by {
                assert((part@ + after).take(part@.len() as int) =~= part@);
                assert((part@ + after).skip(part@.len() as int) =~= after);
            }
        }
        match self {
            FramePart::Header => {
                let header: [u8; 4] = [part[0], part[1], part[2], part[3]];
                assert(header@ =~= part@);
                match frame_length(&header) {
                    Ok(n) => Ok(FrameProgress::More(FramePart::Body(n))),
                    Err(e) => Err(e),
                }
            },
            FramePart::Body(_) => match text::utf8(part) {
                None => Err("Invalid ADB device list"),
                Some(s) => Ok(FrameProgress::Done(parse_devices(s))),
            },
        }
    }
}

/// The devices in the first frame of a stream that ends with `input`.
pub fn track_frame(input: &[u8]) -> (r: Result<Vec<Device>, &'static str>)
    ensures
        match r {
            Ok(ds) => frame_in(input@) == Ok::<Seq<devices::DeviceView>, Seq<char>>(ds.deep_view()),
            Err(e) => frame_in(input@) == Err::<Seq<devices::DeviceView>, Seq<char>>(e@),
        },
{
    let mut at: usize = 0;
    let mut part = FramePart::Header;
    assert(input@.skip(0) == input@);
    loop
        invariant
            at <= input@.len(),
            frame_in(input@) == part.rest(input@.skip(at as int)),
        decreases part.parts_left(),
    {
        let n: usize = part.wants();
        if input.len() - at < n {
            return Err(part.truncated());
        }
        let bytes = vstd::slice::slice_subrange(input, at, at + n);
        assert(bytes@ + input@.skip(at + n) == input@.skip(at as int));
        match part.supply(bytes) {
            Err(e) => {
                return Err(e);
            },
            Ok(FrameProgress::Done(ds)) => {
                return Ok(ds);
            },
            Ok(FrameProgress::More(next)) => {
                part = next;
                at += n;
            },
        }
    }
}

// ---------------------------------------------------------------------------
// Laws
// ---------------------------------------------------------------------------
/// A server that is used is on this machine, and its address is an endpoint.
pub proof fn law_server_is_local(env: Environment)
    ensures
        server_of(env) matches Ok(socket) ==> is_endpoint(socket) && is_local(socket),
{
}

/// The endpoint that a text names is one itself, and names itself.
pub proof fn law_endpoint_names_itself(value: Seq<char>)
    requires
        is_endpoint(value),
    ensures
        text::trim_of(text::trim_of(value)) == text::trim_of(value),
        is_endpoint(text::trim_of(value)),
{
    text::lemma_trim_twice(value);
}

/// What a pairing answer reports is a service identifier, or nothing.
pub proof fn law_reported_guid_is_one(answer: Seq<char>)
    ensures
        guid_in(answer).len() == 0 || is_guid(guid_in(answer)),
{
}

/// A frame is taken from the bytes that its header announces, whatever follows.
pub proof fn law_frames_are_delimited(input: Seq<u8>, after: Seq<u8>)
    ensures
        frame_in(input) is Ok ==> frame_in(input + after) == frame_in(input),
{
    if frame_in(input) is Ok {
        assert((input + after).take(4) =~= input.take(4));
        let n = length_in(input.take(4))->0;
        assert((input + after).skip(4).take(n as int) =~= input.skip(4).take(n as int));
    }
}

/// An endpoint is a host and a port from 1 to 65535 behind the last colon, but for
/// white space around them. The host is an IPv6 address in brackets, or at most 253
/// letters, digits, dots and hyphens that start with a letter or a digit.
pub proof fn law_endpoints(value: Seq<char>)
    ensures
        is_endpoint(value) <==> match text::around_last(text::trim_of(value), ':') {
            None => false,
            Some((host, port)) => {
                &&& text::number_of(port, 10) matches Some(n) && 0 < n < 65536
                &&& if host.len() > 0 && host[0] == '[' && host.last() == ']' {
                    address::ipv6_of(host.subrange(1, host.len() - 1)) is Some
                } else {
                    &&& 0 < host.len() < 254
                    &&& text::is_alnum(host[0])
                    &&& forall|i: int|
                        0 <= i < host.len() ==> text::is_alnum(#[trigger] host[i]) || host[i] == '.'
                            || host[i] == '-'
                }
            },
        },
        !text::trim_of(value).contains(':') ==> endpoint_error(value)
            == "Use host:port or [IPv6]:port; pairing and connection ports differ"@,
        text::trim_of(value).contains(':') ==> endpoint_error(value)
            == "Use a valid host and explicit port; pairing and connection ports differ"@,
{
    let t = text::trim_of(value);
    text::law_texts_are_parted_at_the_last_place(t, ':');
    if let Some((a, b)) = text::around_last(t, ':') {
        assert(t[a.len() as int] == ':');
        assert(t.contains(':'));
        assert forall|i: int| 0 <= i < a.len() && good_host(a) && !(a[0] == '[' && a.last()
            == ']') implies text::is_alnum(#[trigger] a[i]) || a[i] == '.' || a[i] == '-' by {
            assert(is_host_char(a[i]));
        }
    }
}

/// The server is the one that the environment names as a local TCP smart socket, be it
/// by its address or by its port; else the one on the port that the environment names,
/// else on port 5037 of this machine. Any other is refused.
pub proof fn law_server_is_named_by_the_environment(env: Environment)
    ensures
        ({
            let named = match (env.server_socket, env.server_port) {
                (Some(s), _) => s@,
                (None, Some(p)) => "tcp:localhost:"@ + p@,
                (None, None) => "tcp:localhost:"@ + "5037"@,
            };
            server_of(env) == if !"tcp:"@.is_prefix_of(named) {
                Err::<Seq<char>, Seq<char>>("ADB_SERVER_SOCKET must be a local TCP smart socket"@)
            } else {
                let address = named.skip("tcp:"@.len() as int);
                let socket = if address.contains(':') {
                    address
                } else {
                    "localhost:"@ + address
                };
                if !is_endpoint(socket) {
                    Err(endpoint_error(socket))
                } else if !is_local(socket) {
                    Err("Remote ADB servers are unsupported; use a loopback ADB_SERVER_SOCKET"@)
                } else {
                    Ok(socket)
                }
            }
        }),
{
}

/// A server is on this machine where its host is called so, or has an address of the
/// loopback interface.
pub proof fn law_local_servers(host: Seq<char>, port: Seq<char>)
    requires
        !port.contains(':'),
    ensures
        is_local("localhost"@ + seq![':'] + port),
        host.len() > 0 && host[0] != '[' && host[0] != ']' && host.last() != '[' && host.last()
            != ']' ==> (is_local(host + seq![':'] + port) <==> host == "localhost"@
            || address::is_loopback(host)),
        host.len() > 0 && host[0] != '[' && host[0] != ']' && host.last() != '[' && host.last()
            != ']' ==> (is_local(seq!['['] + host + seq![']'] + seq![':'] + port) <==> host
            == "localhost"@ || address::is_loopback(host)),
{
    let f = text::brackets();
    lemma_around(host, port);
    lemma_around(seq!['['] + host + seq![']'], port);
    lemma_around("localhost"@, port);
    reveal_strlit("localhost");
    let l = "localhost"@;
    assert(l.len() == 9 && l[0] == 'l' && l[8] == 't');
    assert(text::trim_start_by(l, f) == l);
    assert(text::trim_end_by(l, f) == l);
    if host.len() > 0 && host[0] != '[' && host[0] != ']' && host.last() != '[' && host.last()
        != ']' {
        assert(text::trim_start_by(host, f) == host);
        assert(text::trim_end_by(host, f) == host);
        let b = seq!['['] + host + seq![']'];
        assert(f(b[0]));
        assert(b.drop_first() =~= host + seq![']']);
        assert(text::trim_start_by(host + seq![']'], f) == host + seq![']']);
        assert(text::trim_start_by(b, f) == host + seq![']']);
        let c = host + seq![']'];
        assert(f(c.last()));
        assert(c.drop_last() =~= host);
        assert(text::trim_end_by(c, f) == host);
    }
}

proof fn lemma_around(host: Seq<char>, port: Seq<char>)
    requires
        !port.contains(':'),
    ensures
        text::around_last(host + seq![':'] + port, ':') == Some((host, port)),
    decreases port.len(),
{
    let s = host + seq![':'] + port;
    if port.len() == 0 {
        assert(s.drop_last() =~= host);
        assert(port =~= Seq::empty());
    } else {
        let q = port.drop_last();
        assert(port =~= q.push(port.last()));
        crate::lists::lemma_push_contains(q, port.last(), ':');
        lemma_around(host, q);
        assert(s.drop_last() =~= host + seq![':'] + q);
        assert(s.last() == port.last());
    }
}

/// The helper is the one that was given, else the one on the search path, else the one
/// of the SDK in the home directory.
pub proof fn law_helper_is_chosen(path: Seq<char>, env: Environment)
    ensures
        path.len() > 0 ==> program_of(path, env) == path,
        path.len() == 0 && env.on_path ==> program_of(path, env) == "adb"@,
        path.len() == 0 && !env.on_path ==> program_of(path, env) == match env.home {
            Some(h) => h@,
            None => Seq::empty(),
        } + "/Android/Sdk/platform-tools/adb"@,
{
}

/// What the helper is run with: its own arguments, with at most 65536 bytes read of
/// what it prints; on one transport, which is named first, for three seconds; to
/// connect, for fifteen; and to pair, for thirty, with the secret and a line feed to
/// read, so that the secret is not among the arguments.
pub proof fn law_helper_is_run_with(
    a: AdbView,
    args: Seq<Seq<char>>,
    input: Option<Seq<u8>>,
    seconds: u64,
    id: Seq<char>,
    address: Seq<char>,
    secret: Seq<char>,
    qr: bool,
)
    ensures
        a.invocation(args, input, seconds) == (CallView {
            program: a.path,
            args,
            input,
            limit: 65536,
            seconds,
        }),
        a.device_call(id, args) == (CallView {
            program: a.path,
            args: seq!["-t"@, id] + args,
            input: None,
            limit: 65536,
            seconds: 3,
        }),
        a.connect_request(address) == if is_endpoint(address) {
            Ok::<CallView, Seq<char>>(
                CallView {
                    program: a.path,
                    args: seq!["connect"@, text::trim_of(address)],
                    input: None,
                    limit: 65536,
                    seconds: 15,
                },
            )
        } else {
            Err(endpoint_error(address))
        },
        a.pair_request(address, secret, qr) == if !good_secret(secret, qr) {
            Err::<CallView, Seq<char>>("Invalid pairing code; generate a new code on the phone"@)
        } else if is_endpoint(address) {
            Ok(
                CallView {
                    program: a.path,
                    args: seq!["pair"@, text::trim_of(address)],
                    input: Some(encode_utf8(secret + "\n"@)),
                    limit: 65536,
                    seconds: 30,
                },
            )
        } else {
            Err(endpoint_error(address))
        },
        is_transport_id(id) <==> id.len() > 0 && forall|i: int|
            0 <= i < id.len() ==> '0' <= #[trigger] id[i] <= '9',
        no_transport_id() == "ADB omitted transport IDs; update platform-tools"@,
{
    if id.len() > 0 && forall|i: int| 0 <= i < id.len() ==> '0' <= #[trigger] id[i] <= '9' {
        assert forall|i: int| 0 <= i < id.len() implies text::is_digit(#[trigger] id[i]) by {
            assert('0' <= id[i] <= '9');
        }
    }
    if is_transport_id(id) {
        assert forall|i: int| 0 <= i < id.len() implies '0' <= #[trigger] id[i] <= '9' by {
            assert(text::is_digit(id[i]));
        }
    }
}

/// A secret from a QR code has 20 to 64 letters and digits; one that is typed has six
/// digits.
pub proof fn law_pairing_secrets(secret: Seq<char>)
    ensures
        good_secret(secret, true) <==> 20 <= secret.len() <= 64 && forall|i: int|
            0 <= i < secret.len() ==> text::is_alnum(#[trigger] secret[i]),
        good_secret(secret, false) <==> secret.len() == 6 && forall|i: int|
            0 <= i < secret.len() ==> text::is_digit(#[trigger] secret[i]),
{
}

/// A phone is told by what it answers, but for white space around it: any UTF-8 of at
/// most 256 bytes, unless it is nothing or `unknown` in any spelling.
pub proof fn law_identities(output: Seq<u8>)
    ensures
        !valid_utf8(output) ==> identity_in(output) == Err::<Seq<char>, Seq<char>>(
            "Invalid phone identity"@,
        ),
        valid_utf8(output) ==> {
            let v = text::trim_of(decode_utf8(output));
            identity_in(output) == if v.len() == 0 || text::same_ignoring_case(v, "unknown"@)
                || encode_utf8(v).len() > 256 {
                Err::<Seq<char>, Seq<char>>(
                    "Phone exposes no stable ro.serialno; cannot safely reconnect"@,
                )
            } else {
                Ok(v)
            }
        },
{
}

/// The answer to an attempt to connect is a success where some line of it starts with
/// one of two phrases.
pub proof fn law_connection_answers(output: Seq<u8>)
    ensures
        is_connected_answer(output) <==> bytes::some_line_starts(
            output,
            encode_utf8("connected to "@),
        ) || bytes::some_line_starts(output, encode_utf8("already connected to "@)),
        not_connected()
            == "Connection failed; use the main Wireless debugging connection port, not the pairing port"@,
{
}

/// Pairing succeeded exactly where the answer says so, and the phone is then known by
/// the identifier in the answer, if there is one.
pub proof fn law_pairing_answers(answer: Seq<char>)
    ensures
        paired_in(answer) is Ok <==> text::occurs(answer, "Successfully paired"@),
        paired_in(answer) matches Ok(v) ==> v == guid_in(answer),
        paired_in(answer) matches Err(e) ==> e
            == "Pairing failed; generate a new QR/code and check the pairing port"@,
        !text::occurs(answer, "[guid="@) ==> guid_in(answer).len() == 0,
{
}

/// An identifier has at most 256 letters, digits, underscores, dots and hyphens.
pub proof fn law_identifiers(g: Seq<char>)
    ensures
        is_guid(g) <==> g.len() <= 256 && forall|i: int|
            0 <= i < g.len() ==> text::is_alnum(#[trigger] g[i]) || g[i] == '_' || g[i] == '.'
                || g[i] == '-',
{
    if is_guid(g) {
        assert forall|i: int| 0 <= i < g.len() implies text::is_alnum(#[trigger] g[i]) || g[i]
            == '_' || g[i] == '.' || g[i] == '-' by {
            assert(is_guid_char(g[i]));
        }
    }
    if g.len() <= 256 && forall|i: int|
        0 <= i < g.len() ==> text::is_alnum(#[trigger] g[i]) || g[i] == '_' || g[i] == '.' || g[i]
            == '-' {
        assert forall|i: int| 0 <= i < g.len() implies is_guid_char(#[trigger] g[i]) by {
            assert(text::is_alnum(g[i]) || g[i] == '_' || g[i] == '.' || g[i] == '-');
        }
    }
}

/// The first `]` behind a text without one is found there.
proof fn lemma_bracket_after(g: Seq<char>, post: Seq<char>)
    requires
        !g.contains(']'),
    ensures
        text::find_at(g + "]"@ + post, "]"@) == Some(g.len() as int),
    decreases g.len(),
{
    reveal_strlit("]");
    let rest = g + "]"@ + post;
    if g.len() == 0 {
        assert("]"@ =~= rest.subrange(0, 1));
    } else {
        let h = g.drop_first();
        assert(g[0] != ']');
        assert forall|k: int| 0 <= k < h.len() implies h[k] != ']' by {
            assert(g[k + 1] == h[k]);
        }
        lemma_bracket_after(h, post);
        assert(rest.drop_first() =~= h + "]"@ + post);
        assert(rest[0] == g[0]);
        if "]"@.is_prefix_of(rest) {
            assert(rest.subrange(0, 1)[0] == ']');
        }
    }
}

/// The identifier in an answer is what stands between the first `[guid=` and the next
/// `]`, where that can be one, and else unknown.
pub proof fn law_identifiers_are_found(
    answer: Seq<char>,
    pre: Seq<char>,
    g: Seq<char>,
    post: Seq<char>,
)
    requires
        answer == pre + "[guid="@ + (g + "]"@ + post),
        text::find_at(answer, "[guid="@) == Some(pre.len() as int),
        !g.contains(']'),
    ensures
        guid_in(answer) == if is_guid(g) {
            g
        } else {
            Seq::empty()
        },
{
    let k = "[guid="@.len();
    let rest = answer.skip((pre.len() + k) as int);
    assert(rest =~= g + "]"@ + post);
    lemma_bracket_after(g, post);
    assert(rest.take(g.len() as int) =~= g);
}

/// A process is a mirror of this user where it has a number, runs as this user and the
/// file name of its program is one of two. A process table that cannot be read may hold
/// one.
pub proof fn law_mirrors(p: Process, processes: Seq<Process>)
    ensures
        p.is_mirror() <==> {
            &&& p.own
            &&& forall|i: int| 0 <= i < p.name@.len() ==> text::is_digit(#[trigger] p.name@[i])
            &&& p.cmdline matches Some(c) && {
                let program = bytes::after_last(bytes::before_first(c@, 0), 47);
                program == encode_utf8("scrcpy"@) || program == encode_utf8("scrcpy.exe"@)
            }
        },
        is_mirroring(None),
        is_mirroring(Some(processes)) <==> exists|i: int|
            0 <= i < processes.len() && (#[trigger] processes[i]).is_mirror(),
{
}

/// Another server runs on the phone where some line of the process list names the
/// server and does not have this session's id among its words.
pub proof fn law_foreign_servers(raw: Seq<char>, line: Seq<char>, own: Seq<char>)
    ensures
        is_foreign_server(line, own) <==> text::occurs(line, "com.genymobile.scrcpy.Server"@) && (
        own.len() == 0 || !text::words_of(line).contains("scid="@ + own)),
        has_foreign_server(raw, own) <==> exists|l: Seq<char>|
            text::split_at_char(raw, '\n').contains(l) && #[trigger] is_foreign_server(l, own),
{
    let lines = text::split_at_char(raw, '\n');
    if has_foreign_server(raw, own) {
        let i = choose|i: int| 0 <= i < lines.len() && is_foreign_server(#[trigger] lines[i], own);
        assert(lines.contains(lines[i]));
    }
    if exists|l: Seq<char>| lines.contains(l) && #[trigger] is_foreign_server(l, own) {
        let l = choose|l: Seq<char>| lines.contains(l) && #[trigger] is_foreign_server(l, own);
        let i = choose|i: int| 0 <= i < lines.len() && lines[i] == l;
        assert(is_foreign_server(lines[i], own));
    }
}

/// A frame has its length in four hexadecimal digits, then as many bytes of a device
/// list in UTF-8; whatever breaks off or cannot be read is told apart.
pub proof fn law_tracking_frames(input: Seq<u8>)
    ensures
        input.len() < 4 ==> frame_in(input) == Err::<Seq<devices::DeviceView>, Seq<char>>(
            "ADB tracking disconnected; restarting discovery"@,
        ),
        input.len() >= 4 ==> {
            let header = input.subrange(0, 4);
            let length = if valid_utf8(header) {
                text::number_of(decode_utf8(header), 16)
            } else {
                None
            };
            match length {
                None => frame_in(input) == Err::<Seq<devices::DeviceView>, Seq<char>>(
                    "Invalid ADB tracking frame"@,
                ),
                Some(n) => frame_in(input) == if input.len() < 4 + n {
                    Err::<Seq<devices::DeviceView>, Seq<char>>("Truncated ADB tracking frame"@)
                } else if !valid_utf8(input.subrange(4, 4 + n as int)) {
                    Err("Invalid ADB device list"@)
                } else {
                    Ok(devices::devices_in(decode_utf8(input.subrange(4, 4 + n as int))))
                },
            }
        },
{
    if input.len() >= 4 {
        assert(input.take(4) =~= input.subrange(0, 4));
        if let Some(n) = length_in(input.take(4)) {
            if input.len() >= 4 + n {
                assert(input.skip(4).take(n as int) =~= input.subrange(4, 4 + n as int));
            }
        }
    }
}

} // verus!
