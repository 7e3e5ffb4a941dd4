//! Pairing over Wi-Fi: discovered services, the QR code and the pairing attempt.
use crate::adb::{self, endpoint, Device};
use crate::bytes;
use crate::devices::DeviceView;
use crate::process::{self, Call, CallView, Outcome};
use crate::text;
use base64::engine::general_purpose::STANDARD;
use base64::Engine;
use vstd::prelude::*;
use vstd::utf8::*;

verus! {

// ---------------------------------------------------------------------------
// Status
// ---------------------------------------------------------------------------
/// What is shown of a pairing attempt.
pub struct Status {
    pub image: String,
    pub message: String,
    pub active: bool,
}

/// What a [`Status`] holds.
pub struct StatusView {
    pub image: Seq<char>,
    pub message: Seq<char>,
    pub active: bool,
}

impl View for Status {
    type V = StatusView;

    open spec fn view(&self) -> StatusView {
        StatusView { image: self.image@, message: self.message@, active: self.active }
    }
}

impl Clone for Status {
    fn clone(&self) -> (r: Self)
        ensures
            r@ == self@,
    {
        Status { image: self.image.clone(), message: self.message.clone(), active: self.active }
    }
}

impl Default for Status {
    /// No attempt.
    fn default() -> (r: Self)
        ensures
            r@ == (StatusView { image: Seq::empty(), message: Seq::empty(), active: false }),
    {
        let r = Status { image: String::new(), message: String::new(), active: false };
        assert(r@.image =~= Seq::empty());
        assert(r@.message =~= Seq::empty());
        r
    }
}

// ---------------------------------------------------------------------------
// Services
// ---------------------------------------------------------------------------
/// A service that a phone advertises.
#[derive(Debug, PartialEq, Eq)]
pub struct Service {
    pub name: String,
    pub kind: String,
    pub address: String,
    pub target: String,
}

/// What a [`Service`] holds.
pub struct ServiceView {
    pub name: Seq<char>,
    pub kind: Seq<char>,
    pub address: Seq<char>,
    pub target: Seq<char>,
}

impl View for Service {
    type V = ServiceView;

    open spec fn view(&self) -> ServiceView {
        ServiceView {
            name: self.name@,
            kind: self.kind@,
            address: self.address@,
            target: self.target@,
        }
    }
}

impl DeepView for Service {
    type V = ServiceView;

    open spec fn deep_view(&self) -> ServiceView {
        self@
    }
}

impl Clone for Service {
    fn clone(&self) -> (r: Self)
        ensures
            r@ == self@,
    {
        Service {
            name: self.name.clone(),
            kind: self.kind.clone(),
            address: self.address.clone(),
            target: self.target.clone(),
        }
    }
}

/// Whether `b` is an ASCII digit.
pub open spec fn is_digit_byte(b: u8) -> bool {
    48 <= b <= 57
}

/// `head` before what is there, if anything.
pub open spec fn before(head: u8, rest: Option<Seq<u8>>) -> Option<Seq<u8>> {
    match rest {
        Some(r) => Some(seq![head] + r),
        None => None,
    }
}

/// The bytes that an escaped text stands for: a backslash and three digits stand for
/// the byte with this decimal number.
pub open spec fn unescaped(s: Seq<u8>) -> Option<Seq<u8>>
    decreases s.len(),
{
    if s.len() == 0 {
        Some(s)
    } else if s[0] != 92 {
        before(s[0], unescaped(s.drop_first()))
    } else if s.len() < 4 || !is_digit_byte(s[1]) || !is_digit_byte(s[2]) || !is_digit_byte(s[3]) {
        None
    } else {
        let n = 100 * (s[1] - 48) + 10 * (s[2] - 48) + (s[3] - 48);
        if n > 255 {
            None
        } else {
            before(n as u8, unescaped(s.skip(4)))
        }
    }
}

/// The text that an escaped text stands for.
pub open spec fn unescape_of(raw: Seq<char>) -> Option<Seq<char>> {
    match unescaped(encode_utf8(raw)) {
        Some(b) => if valid_utf8(b) {
            Some(decode_utf8(b))
        } else {
            None
        },
        None => None,
    }
}

/// `done` before what is there, if anything.
spec fn joined(done: Seq<u8>, rest: Option<Seq<u8>>) -> Option<Seq<u8>> {
    match rest {
        Some(r) => Some(done + r),
        None => None,
    }
}

/// The text that an escaped text stands for.
pub fn unescape(raw: &str) -> (r: Option<String>)
    ensures
        r.deep_view() == unescape_of(raw@),
{
    let s = raw.as_bytes();
    let mut out: Vec<u8> = Vec::new();
    let mut i: usize = 0;
    proof {
        assert(s@.skip(0) == s@);
        if let Some(r) = unescaped(s@) {
            assert(out@ + r == r);
        }
    }
    while i < s.len()
        invariant
            i <= s@.len(),
            s@ == encode_utf8(raw@),
            unescaped(s@) == joined(out@, unescaped(s@.skip(i as int))),
        decreases s@.len() - i,
    {
        let ghost rest = s@.skip(i as int);
        let ghost done = out@;
        let b = s[i];
        assert(rest[0] == b);
        if b != 92 {
            out.push(b);
            i += 1;
            proof {
                assert(rest.drop_first() == s@.skip(i as int));
                if let Some(r) = unescaped(s@.skip(i as int)) {
                    assert(done + (seq![b] + r) == out@ + r);
                }
            }
        } else {
            if s.len() - i < 4 {
                return None;
            }
            let x = s[i + 1];
            let y = s[i + 2];
            let z = s[i + 3];
            assert(rest[1] == x && rest[2] == y && rest[3] == z);
            if !(48 <= x && x <= 57 && 48 <= y && y <= 57 && 48 <= z && z <= 57) {
                return None;
            }
            let n: u16 = 100 * (x - 48) as u16 + 10 * (y - 48) as u16 + (z - 48) as u16;
            if n > 255 {
                return None;
            }
            out.push(n as u8);
            i += 4;
            proof {
                assert(rest.skip(4) == s@.skip(i as int));
                if let Some(r) = unescaped(s@.skip(i as int)) {
                    assert(done + (seq![n as u8] + r) == out@ + r);
                }
            }
        }
    }
    proof {
        assert(s@.skip(i as int) == Seq::<u8>::empty());
        assert(out@ + Seq::<u8>::empty() == out@);
    }
    match text::utf8(&out) {
        Some(t) => Some(t.to_owned()),
        None => None,
    }
}

/// The fields of a line of the discovery.
pub open spec fn fields_of(line: Seq<char>) -> Seq<Seq<char>> {
    text::split_at_char(text::trim_end_by(line, text::spaces()), ';')
}

/// Whether a service is one of a phone's wireless debugging.
pub open spec fn is_kind(kind: Seq<char>) -> bool {
    kind == "_adb-tls-pairing._tcp"@ || kind == "_adb-tls-connect._tcp"@
}

/// The endpoint of a host and a port.
pub open spec fn address_of(host: Seq<char>, port: Seq<char>) -> Seq<char> {
    if host.contains(':') {
        "["@ + host + "]:"@ + port
    } else {
        host + ":"@ + port
    }
}

/// The service on a line of the discovery, and whether it appeared or went away.
pub open spec fn service_in(line: Seq<char>) -> Option<(bool, ServiceView)> {
    let p = fields_of(line);
    if p.len() < 6 || !(p[0] == "="@ || p[0] == "-"@) || !is_kind(p[4]) || p[5] != "local"@ {
        None
    } else {
        match unescape_of(p[3]) {
            None => None,
            Some(name) => {
                let target = if p.len() > 6 {
                    p[6]
                } else {
                    ""@
                };
                if p[0] == "-"@ {
                    Some((false, ServiceView { name, kind: p[4], address: ""@, target }))
                } else if p.len() < 9 || !adb::is_endpoint(address_of(p[7], p[8])) {
                    None
                } else {
                    Some(
                        (
                            true,
                            ServiceView { name, kind: p[4], address: address_of(p[7], p[8]), target },
                        ),
                    )
                }
            },
        }
    }
}

fn address(host: &str, port: &str) -> (r: String)
    ensures
        r@ == address_of(host@, port@),
{
    if text::has_char(host, ':') {
        text::pair(&text::pair(&text::pair("[", host), "]:"), port)
    } else {
        text::pair(&text::pair(host, ":"), port)
    }
}

/// The fields of a line of the discovery.
fn fields(line: &str) -> (r: Vec<String>)
    ensures
        r.deep_view() == fields_of(line@),
{
    text::split(text::trim_end(line, text::Class::Space), ';')
}

/// The service on a line of the discovery, and whether it appeared or went away.
pub fn parse_service(line: &str) -> (r: Option<(bool, Service)>)
    ensures
        match r {
            Some((add, s)) => service_in(line@) == Some((add, s@)),
            None => service_in(line@) is None,
        },
{
    let p = fields(line);
    let ghost f = p.deep_view();
    assert(f.len() == p@.len());
    assert(forall|i: int| 0 <= i < f.len() ==> #[trigger] f[i] == p@[i]@);
    if p.len() < 6 {
        return None;
    }
    let add = text::same(&p[0], "=");
    proof {
        reveal_strlit("=");
        reveal_strlit("-");
        assert("="@[0] != "-"@[0]);
    }
    if !add && !text::same(&p[0], "-") {
        return None;
    }
    let name = match unescape(&p[3]) {
        Some(n) => n,
        None => {
            return None;
        },
    };
    if !(text::same(&p[4], "_adb-tls-pairing._tcp") || text::same(&p[4], "_adb-tls-connect._tcp"))
        || !text::same(&p[5], "local") {
        return None;
    }
    let address = if add {
        if p.len() < 9 {
            return None;
        }
        let value = address(&p[7], &p[8]);
        match endpoint(&value) {
            Ok(_) => value,
            Err(_) => {
                return None;
            },
        }
    } else {
        "".to_owned()
    };
    let target = if p.len() > 6 {
        p[6].clone()
    } else {
        "".to_owned()
    };
    Some((add, Service { name, kind: p[4].clone(), address, target }))
}

// ---------------------------------------------------------------------------
// Telling the paired phone
// ---------------------------------------------------------------------------
/// Whether a service is that of the phone with the identifier `guid`.
pub open spec fn is_guid_match(name: Seq<char>, guid: Seq<char>) -> bool {
    guid.len() > 0 && (name == guid || text::strip(name, "adb-"@) == Some(guid))
}

/// Whether a service is that of the phone with the identifier `guid`.
pub fn matches_guid(name: &str, guid: &str) -> (r: bool)
    ensures
        r == is_guid_match(name@, guid@),
{
    if guid.is_empty() {
        return false;
    }
    text::same(name, guid) || match text::strip_prefix(name, "adb-") {
        Some(rest) => text::same(rest, guid),
        None => false,
    }
}

/// Whether a service is the one through which the transport is connected.
pub open spec fn is_service_of(s: ServiceView, d: DeviceView, guid: Seq<char>) -> bool {
    s.kind == "_adb-tls-connect._tcp"@ && is_guid_match(s.name, guid) && s.address == d.serial
}

/// Whether one of the services is the one through which the transport is connected.
pub open spec fn some_service_of(
    services: Seq<ServiceView>,
    d: DeviceView,
    guid: Seq<char>,
) -> bool {
    exists|i: int| 0 <= i < services.len() && is_service_of(#[trigger] services[i], d, guid)
}

/// Whether a transport leads to the phone with the identifier `guid`.
pub open spec fn is_paired_device(
    d: DeviceView,
    guid: Seq<char>,
    services: Seq<ServiceView>,
) -> bool {
    &&& d.state == "device"@
    &&& is_guid_match(text::before_first(d.serial, "._adb-tls-connect"@), guid)
        || some_service_of(services, d, guid)
}

/// Whether the phone with the identifier `guid` is connected.
pub open spec fn is_connected(
    devices: Seq<DeviceView>,
    guid: Seq<char>,
    services: Seq<ServiceView>,
) -> bool {
    guid.len() > 0 && exists|i: int|
        0 <= i < devices.len() && is_paired_device(#[trigger] devices[i], guid, services)
}

fn serves(services: &[Service], d: &Device, guid: &str) -> (r: bool)
    ensures
        r == some_service_of(services.deep_view(), d@, guid@),
{
    let ghost all = services.deep_view();
    let mut i: usize = 0;
    while i < services.len()
        invariant
            i <= services@.len(),
            all == services.deep_view(),
            forall|j: int| 0 <= j < i ==> !is_service_of(#[trigger] all[j], d@, guid@),
        decreases services@.len() - i,
    {
        assert(all[i as int] == services@[i as int]@);
        if text::same(&services[i].kind, "_adb-tls-connect._tcp") && matches_guid(
            &services[i].name,
            guid,
        ) && text::same(&services[i].address, &d.serial) {
            return true;
        }
        i += 1;
    }
    false
}

/// Whether the phone with the identifier `guid` is connected.
pub fn connected(devices: &[Device], guid: &str, services: &[Service]) -> (r: bool)
    ensures
        r == is_connected(devices.deep_view(), guid@, services.deep_view()),
{
    if guid.is_empty() {
        return false;
    }
    let ghost all = devices.deep_view();
    let ghost known = services.deep_view();
    let mut i: usize = 0;
    while i < devices.len()
        invariant
            i <= devices@.len(),
            guid@.len() > 0,
            all == devices.deep_view(),
            known == services.deep_view(),
            forall|j: int| 0 <= j < i ==> !is_paired_device(#[trigger] all[j], guid@, known),
        decreases devices@.len() - i,
    {
        assert(all[i as int] == devices@[i as int]@);
        if text::same(&devices[i].state, "device") && (matches_guid(
            text::before(&devices[i].serial, "._adb-tls-connect"),
            guid,
        ) || serves(services, &devices[i], guid)) {
            return true;
        }
        i += 1;
    }
    false
}

// ---------------------------------------------------------------------------
// The QR code
// ---------------------------------------------------------------------------
/// The byte at an index, and zero behind the end.
pub open spec fn byte_at(data: Seq<u8>, i: int) -> int {
    if 0 <= i < data.len() {
        data[i] as int
    } else {
        0
    }
}

/// The six bits that the symbol with the index `k` stands for.
pub open spec fn sextet(data: Seq<u8>, k: int) -> int {
    let i = 3 * (k / 4);
    let v = 65536 * byte_at(data, i) + 256 * byte_at(data, i + 1) + byte_at(data, i + 2);
    if k % 4 == 0 {
        v / 262144
    } else if k % 4 == 1 {
        v / 4096 % 64
    } else if k % 4 == 2 {
        v / 64 % 64
    } else {
        v % 64
    }
}

/// The symbol of the standard alphabet for six bits.
pub open spec fn symbol(v: int) -> char {
    if v < 26 {
        ('A' as u32 + v) as char
    } else if v < 52 {
        ('a' as u32 + (v - 26)) as char
    } else if v < 62 {
        ('0' as u32 + (v - 52)) as char
    } else if v == 62 {
        '+'
    } else {
        '/'
    }
}

/// Base64 with the standard alphabet and padding: four symbols for each three bytes
/// begun, of which those that hold no bit of the bytes are padding.
pub open spec fn base64_of(data: Seq<u8>) -> Seq<char> {
    Seq::new(
        (4 * ((data.len() + 2) / 3)) as nat,
        |k: int| if 6 * k < 8 * data.len() {
            symbol(sextet(data, k))
        } else {
            '='
        },
    )
}

/// `base64::engine::general_purpose::STANDARD.encode` gives the standard encoding
/// with padding. It panics where the text would be too long to hold.
#[verifier::external_body]
fn encode(data: &[u8]) -> (r: String)
    requires
        4 * ((data@.len() + 2) / 3) <= isize::MAX,
    ensures
        r@ == base64_of(data@),
{
    STANDARD.encode(data)
}

/// The largest image, in bytes.
pub const MAX_IMAGE: usize = 131072;

/// What makes the image of a QR code.
pub open spec fn qr_request(payload: Seq<char>) -> CallView {
    CallView {
        program: "qrencode"@,
        args: seq!["-t"@, "PNG"@, "-s"@, "6"@, "-m"@, "4"@, "-o"@, "-"@],
        input: Some(encode_utf8(payload)),
        limit: MAX_IMAGE,
        seconds: 5,
    }
}

/// What makes the image of a QR code.
pub fn qr_call(payload: &str) -> (r: Call)
    ensures
        r@ == qr_request(payload@),
{
    let args = ["-t", "PNG", "-s", "6", "-m", "4", "-o", "-"];
    assert(args.deep_view() =~= seq!["-t"@, "PNG"@, "-s"@, "6"@, "-m"@, "4"@, "-o"@, "-"@]);
    Call {
        program: "qrencode".to_owned(),
        args: text::own_all(&args),
        input: Some(vstd::slice::slice_to_vec(payload.as_bytes())),
        limit: MAX_IMAGE,
        seconds: 5,
    }
}

/// What an image starts with.
pub open spec fn png_signature() -> Seq<u8> {
    seq![137u8, 80u8, 78u8, 71u8, 13u8, 10u8, 26u8, 10u8]
}

/// The image of a QR code as a data URL, or why there is none.
pub open spec fn image_in(outcome: Outcome) -> Result<Seq<char>, Seq<char>> {
    match process::result_of(outcome, MAX_IMAGE) {
        Err(e) => Err(e),
        Ok(png) => if png_signature().is_prefix_of(png) {
            Ok("data:image/png;base64,"@ + base64_of(png))
        } else {
            Err("Cannot generate QR; install qrencode"@)
        },
    }
}

/// The image of a QR code as a data URL: `outcome` is how the helper of [`qr_call`]
/// ended.
pub fn qr_image(outcome: Outcome) -> (r: Result<String, &'static str>)
    ensures
        match r {
            Ok(s) => image_in(outcome) == Ok::<Seq<char>, Seq<char>>(s@),
            Err(e) => image_in(outcome) == Err::<Seq<char>, Seq<char>>(e@),
        },
{
    let ghost o = outcome;
    match process::run(outcome, MAX_IMAGE) {
        Err(e) => Err(e),
        Ok(png) => {
            let signature: [u8; 8] = [137, 80, 78, 71, 13, 10, 26, 10];
            assert(signature@ =~= png_signature());
            if !bytes::starts_with(&png, &signature) {
                return Err("Cannot generate QR; install qrencode");
            }
            assert(png@.len() <= MAX_IMAGE);
            Ok(text::pair("data:image/png;base64,", &encode(&png)))
        },
    }
}

// ---------------------------------------------------------------------------
// Laws
// ---------------------------------------------------------------------------
proof fn lemma_plain_bytes(s: Seq<u8>)
    requires
        !s.contains(92u8),
    ensures
        unescaped(s) == Some(s),
    decreases s.len(),
{
    if s.len() > 0 {
        assert(s[0] != 92);
        let rest = s.drop_first();
        assert forall|i: int| 0 <= i < rest.len() implies rest[i] != 92 by {
            assert(s[i + 1] == rest[i]);
        }
        lemma_plain_bytes(rest);
        assert(seq![s[0]] + rest =~= s);
    }
}

/// A name without escapes stands for itself.
pub proof fn law_plain_names_are_kept(raw: Seq<char>)
    requires
        !encode_utf8(raw).contains(92u8),
    ensures
        unescape_of(raw) == Some(raw),
{
    lemma_plain_bytes(encode_utf8(raw));
    encode_utf8_valid_utf8(raw);
    encode_utf8_decode_utf8(raw);
}

/// A service that appeared can be connected to: its address is an endpoint.
pub proof fn law_services_have_endpoints(line: Seq<char>)
    ensures
        service_in(line) matches Some((true, s)) ==> adb::is_endpoint(s.address) && is_kind(s.kind),
{
}

/// A phone without an identifier is not taken for a connected one.
pub proof fn law_unknown_phone_is_not_connected(
    devices: Seq<DeviceView>,
    services: Seq<ServiceView>,
)
    ensures
        !is_connected(devices, Seq::empty(), services),
{
}

/// A backslash and three digits stand for the byte with this number, every other byte
/// for itself; a backslash without them, or with a number over 255, makes the name
/// none. So does anything that is no UTF-8 in the end.
pub proof fn law_names_are_unescaped(
    b: u8,
    x: u8,
    y: u8,
    z: u8,
    rest: Seq<u8>,
    raw: Seq<char>,
)
    ensures
        unescaped(Seq::<u8>::empty()) == Some(Seq::<u8>::empty()),
        b != 92 ==> unescaped(seq![b] + rest) == match unescaped(rest) {
            Some(r) => Some(seq![b] + r),
            None => None,
        },
        ({
            let n = 100 * (x - 48) + 10 * (y - 48) + (z - 48);
            unescaped(seq![92u8, x, y, z] + rest) == if 48 <= x <= 57 && 48 <= y <= 57 && 48 <= z
                <= 57 && n <= 255 {
                match unescaped(rest) {
                    Some(r) => Some(seq![n as u8] + r),
                    None => None,
                }
            } else {
                None
            }
        }),
        rest.len() < 3 ==> unescaped(seq![92u8] + rest) is None,
        match unescaped(encode_utf8(raw)) {
            Some(u) => if valid_utf8(u) {
                unescape_of(raw) == Some(decode_utf8(u))
            } else {
                unescape_of(raw) is None
            },
            None => unescape_of(raw) is None,
        },
{
    assert((seq![b] + rest).drop_first() =~= rest);
    assert((seq![92u8, x, y, z] + rest).skip(4) =~= rest);
    let t = seq![92u8, x, y, z] + rest;
    assert(t[0] == 92 && t[1] == x && t[2] == y && t[3] == z);
    assert((seq![92u8] + rest)[0] == 92);
    assert((seq![b] + rest)[0] == b);
}

/// A line of the discovery has fields between semicolons: whether the service appeared
/// or went away, its interface, its protocol, its name with escapes, its kind, which
/// is one of two, and its domain, which is the local one. One that appeared also has a
/// host name, an address and a port that make an endpoint; an IPv6 address is put in
/// brackets.
pub proof fn law_discovered_services(line: Seq<char>)
    ensures
        ({
            let p = text::split_at_char(text::trim_end_by(line, text::spaces()), ';');
            let known = p.len() >= 6 && (p[4] == "_adb-tls-pairing._tcp"@ || p[4]
                == "_adb-tls-connect._tcp"@) && p[5] == "local"@ && unescape_of(p[3]) is Some;
            let address = if p[7].contains(':') {
                "["@ + p[7] + "]:"@ + p[8]
            } else {
                p[7] + ":"@ + p[8]
            };
            let target = if p.len() > 6 {
                p[6]
            } else {
                ""@
            };
            &&& (service_in(line) matches Some((true, _))) <==> known && p[0] == "="@ && p.len() >= 9
                && adb::is_endpoint(address)
            &&& (service_in(line) matches Some((false, _))) <==> known && p[0] == "-"@
            &&& service_in(line) matches Some((add, s)) ==> s.name == unescape_of(p[3])->0 && s.kind
                == p[4] && s.target == target && s.address == if add {
                address
            } else {
                ""@
            }
        }),
{
    reveal_strlit("=");
    reveal_strlit("-");
    assert("="@[0] != "-"@[0]);
}

/// A service or transport is that of a phone where it has the phone's identifier for a
/// name, alone or after `adb-`; of a phone without an identifier none is.
pub proof fn law_guids_are_matched(name: Seq<char>, guid: Seq<char>)
    ensures
        is_guid_match(name, guid) <==> guid.len() > 0 && (name == guid || name == "adb-"@ + guid),
{
    text::law_prefixes_are_taken_off("adb-"@, guid, name);
}

/// A phone is connected exactly where a ready transport has its identifier before the
/// kind of service in its serial, or has for its serial the address at which the phone
/// offers itself to be connected.
pub proof fn law_connected_phones(
    devices: Seq<DeviceView>,
    guid: Seq<char>,
    services: Seq<ServiceView>,
)
    ensures
        is_connected(devices, guid, services) <==> guid.len() > 0 && exists|d: DeviceView|
            #[trigger] devices.contains(d) && d.state == "device"@ && (is_guid_match(
                text::before_first(d.serial, "._adb-tls-connect"@),
                guid,
            ) || exists|s: ServiceView|
                #[trigger] services.contains(s) && s.kind == "_adb-tls-connect._tcp"@
                    && is_guid_match(s.name, guid) && s.address == d.serial),
{
    assert forall|d: DeviceView| some_service_of(services, d, guid) <==> exists|s: ServiceView|
        #[trigger] services.contains(s) && s.kind == "_adb-tls-connect._tcp"@ && is_guid_match(
            s.name,
            guid,
        ) && s.address == d.serial by {
        if some_service_of(services, d, guid) {
            let i = choose|i: int|
                0 <= i < services.len() && is_service_of(#[trigger] services[i], d, guid);
            assert(services.contains(services[i]));
        }
        if exists|s: ServiceView|
            #[trigger] services.contains(s) && s.kind == "_adb-tls-connect._tcp"@ && is_guid_match(
                s.name,
                guid,
            ) && s.address == d.serial {
            let s = choose|s: ServiceView|
                #[trigger] services.contains(s) && s.kind == "_adb-tls-connect._tcp"@
                    && is_guid_match(s.name, guid) && s.address == d.serial;
            let i = choose|i: int| 0 <= i < services.len() && services[i] == s;
            assert(is_service_of(services[i], d, guid));
        }
    }
    if is_connected(devices, guid, services) {
        let i = choose|i: int|
            0 <= i < devices.len() && is_paired_device(#[trigger] devices[i], guid, services);
        assert(devices.contains(devices[i]));
    }
    if guid.len() > 0 && exists|d: DeviceView|
        #[trigger] devices.contains(d) && is_paired_device(d, guid, services) {
        let d = choose|d: DeviceView|
            #[trigger] devices.contains(d) && is_paired_device(d, guid, services);
        let i = choose|i: int| 0 <= i < devices.len() && devices[i] == d;
        assert(is_paired_device(devices[i], guid, services));
    }
    assert forall|d: DeviceView| #[trigger] devices.contains(d) implies (is_paired_device(
        d,
        guid,
        services,
    ) <==> d.state == "device"@ && (is_guid_match(
        text::before_first(d.serial, "._adb-tls-connect"@),
        guid,
    ) || some_service_of(services, d, guid))) by {}
}

/// The image of a QR code is made of what the code holds by this helper, and shown
/// whole, as what it is, where it is an image of at most 131072 bytes.
pub proof fn law_qr_images(payload: Seq<char>, png: Vec<u8>, success: bool)
    ensures
        qr_request(payload) == (CallView {
            program: "qrencode"@,
            args: seq!["-t"@, "PNG"@, "-s"@, "6"@, "-m"@, "4"@, "-o"@, "-"@],
            input: Some(encode_utf8(payload)),
            limit: 131072,
            seconds: 5,
        }),
        ({
            let is_png = png@.len() >= 8 && png@[0] == 0x89 && png@[1] == 0x50 && png@[2] == 0x4e
                && png@[3] == 0x47 && png@[4] == 0x0d && png@[5] == 0x0a && png@[6] == 0x1a
                && png@[7] == 0x0a;
            &&& png@.len() <= 131072 && success && is_png ==> image_in(Outcome::Ended(png, success))
                == Ok::<Seq<char>, Seq<char>>("data:image/png;base64,"@ + base64_of(png@))
            &&& png@.len() <= 131072 && success && !is_png ==> image_in(
                Outcome::Ended(png, success),
            ) == Err::<Seq<char>, Seq<char>>("Cannot generate QR; install qrencode"@)
            &&& png@.len() > 131072 || !success ==> image_in(Outcome::Ended(png, success)) is Err
        }),
{
    let sig = png_signature();
    if png@.len() >= 8 && png@[0] == 0x89 && png@[1] == 0x50 && png@[2] == 0x4e && png@[3] == 0x47
        && png@[4] == 0x0d && png@[5] == 0x0a && png@[6] == 0x1a && png@[7] == 0x0a {
        assert(sig =~= png@.subrange(0, 8));
    } else if sig.is_prefix_of(png@) {
        let head = png@.subrange(0, 8);
        assert(head == sig);
        assert(head[0] == png@[0] && head[1] == png@[1] && head[2] == png@[2] && head[3] == png@[3]
            && head[4] == png@[4] && head[5] == png@[5] && head[6] == png@[6] && head[7]
            == png@[7]);
    }
}

/// Three bytes make four symbols of the standard alphabet, six bits each. One or two
/// bytes that are left make two or three, and padding fills them up.
pub proof fn law_base64(data: Seq<u8>, i: int)
    requires
        0 <= i,
        3 * i < data.len(),
    ensures
        ({
            let r = base64_of(data);
            let a = data[3 * i] as int;
            let b = byte_at(data, 3 * i + 1);
            let c = byte_at(data, 3 * i + 2);
            &&& r.len() == 4 * ((data.len() + 2) / 3)
            &&& r[4 * i] == symbol(a / 4)
            &&& r[4 * i + 1] == symbol(a % 4 * 16 + b / 16)
            &&& r[4 * i + 2] == if 3 * i + 1 < data.len() {
                symbol(b % 16 * 4 + c / 64)
            } else {
                '='
            }
            &&& r[4 * i + 3] == if 3 * i + 2 < data.len() {
                symbol(c % 64)
            } else {
                '='
            }
        }),
        byte_at(data, i) == data[i],
        byte_at(data, data.len() as int) == 0,
        forall|v: int|
            0 <= v < 64 ==> (#[trigger] symbol(v)) as u32 == if v < 26 {
                65 + v
            } else if v < 52 {
                71 + v
            } else if v < 62 {
                v - 4
            } else if v == 62 {
                43
            } else {
                47
            },
{
    let r = base64_of(data);
    let a = data[3 * i] as int;
    let b = byte_at(data, 3 * i + 1);
    let c = byte_at(data, 3 * i + 2);
    let v = 65536 * a + 256 * b + c;
    assert(4 * i / 4 == i && (4 * i + 1) / 4 == i && (4 * i + 2) / 4 == i && (4 * i + 3) / 4 == i);
    assert(4 * i % 4 == 0 && (4 * i + 1) % 4 == 1 && (4 * i + 2) % 4 == 2 && (4 * i + 3) % 4 == 3);
    assert(v / 262144 == a / 4);
    assert(v / 4096 % 64 == a % 4 * 16 + b / 16);
    assert(v / 64 % 64 == b % 16 * 4 + c / 64);
    assert(v % 64 == c % 64);
}

} // verus!
