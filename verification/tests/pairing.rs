use omaclip::adb::{Adb, Device, Environment};
use omaclip::attempt::{Attempt, QrAction, QrEvent, QrTurn};
use omaclip::discovery::{Read, Rows};
use omaclip::pairing::{
    connected, matches_guid, parse_service, qr_call, qr_image, unescape, Service, Status,
};
use omaclip::process::Outcome;

const SECOND: u128 = 1_000_000_000;
const PNG: &[u8] = b"\x89PNG\r\n\x1a\n";

fn service(name: &str, kind: &str, address: &str, target: &str) -> Service {
    Service {
        name: name.into(),
        kind: kind.into(),
        address: address.into(),
        target: target.into(),
    }
}

fn device(serial: &str, state: &str) -> Device {
    Device {
        serial: serial.into(),
        state: state.into(),
        model: "m".into(),
        transport: "Wi-Fi".into(),
        id: "1".into(),
        identity: None,
        connections: vec![],
    }
}

#[test]
fn names_are_unescaped() {
    assert_eq!(unescape("adb-1"), Some("adb-1".into()));
    assert_eq!(unescape("a\\032b\\195\\169"), Some("a bé".into()));
    assert_eq!(unescape("\\255"), None);
    assert_eq!(unescape("\\256"), None);
    assert_eq!(unescape("\\12"), None);
    assert_eq!(unescape("\\1x2"), None);
    assert_eq!(unescape(""), Some("".into()));
}

#[test]
fn services_are_parsed() {
    let line = "=;wlan0;IPv4;studio-1;_adb-tls-pairing._tcp;local;host.local;192.168.1.5;37000;\"t\"\n";
    let (add, s) = parse_service(line).unwrap();
    assert!(add);
    assert_eq!(
        s,
        service("studio-1", "_adb-tls-pairing._tcp", "192.168.1.5:37000", "host.local")
    );
    let line = "=;wlan0;IPv6;a;_adb-tls-connect._tcp;local;h;fe80::1;1";
    assert_eq!(parse_service(line).unwrap().1.address, "[fe80::1]:1");
    let (add, s) = parse_service("-;wlan0;IPv4;a;_adb-tls-connect._tcp;local").unwrap();
    assert!(!add);
    assert_eq!(s, service("a", "_adb-tls-connect._tcp", "", ""));
    for line in [
        "+;wlan0;IPv4;a;_adb-tls-connect._tcp;local",
        "-;wlan0;IPv4;a;_adb-tls-connect._tcp",
        "-;wlan0;IPv4;a;_http._tcp;local",
        "-;wlan0;IPv4;a;_adb-tls-connect._tcp;lan",
        "-;wlan0;IPv4;\\9;_adb-tls-connect._tcp;local",
        "=;wlan0;IPv4;a;_adb-tls-connect._tcp;local;h;1.2.3.4",
        "=;wlan0;IPv4;a;_adb-tls-connect._tcp;local;h;1.2.3.4;0",
        "",
    ] {
        assert_eq!(parse_service(line), None, "{line}");
    }
}

#[test]
fn guids_are_matched() {
    assert!(matches_guid("g", "g"));
    assert!(matches_guid("adb-g", "g"));
    assert!(!matches_guid("adb-adb-g", "g"));
    assert!(!matches_guid("x", "g"));
    assert!(!matches_guid("", ""));
    assert!(!matches_guid("adb-", ""));
}

#[test]
fn a_paired_phone_is_recognised() {
    let by_name = [device("adb-g._adb-tls-connect._tcp", "device")];
    assert!(connected(&by_name, "g", &[]));
    assert!(!connected(&by_name, "h", &[]));
    assert!(!connected(&by_name, "", &[]));
    assert!(!connected(&[device("adb-g._adb-tls-connect._tcp", "offline")], "g", &[]));
    let by_address = [device("1.2.3.4:5", "device")];
    let kind = "_adb-tls-connect._tcp";
    assert!(connected(&by_address, "g", &[service("adb-g", kind, "1.2.3.4:5", "")]));
    assert!(!connected(&by_address, "g", &[service("adb-g", kind, "1.2.3.4:6", "")]));
    assert!(!connected(&by_address, "g", &[service("adb-h", kind, "1.2.3.4:5", "")]));
    assert!(!connected(
        &by_address,
        "g",
        &[service("adb-g", "_adb-tls-pairing._tcp", "1.2.3.4:5", "")]
    ));
}

#[test]
fn qr_images_are_data_urls() {
    let call = qr_call("payload");
    assert_eq!(call.program, "qrencode");
    assert_eq!(call.args, vec!["-t", "PNG", "-s", "6", "-m", "4", "-o", "-"]);
    assert_eq!(call.input, Some(b"payload".to_vec()));
    assert_eq!((call.limit, call.seconds), (131072, 5));
    for (tail, encoded) in [
        (b"".as_slice(), "iVBORw0KGgo="),
        (b"\xff", "iVBORw0KGgr/"),
        (b"\xfb\xef\xbe", "iVBORw0KGgr7774="),
        (b"ab", "iVBORw0KGgphYg=="),
    ] {
        let png = [PNG, tail].concat();
        assert_eq!(
            qr_image(Outcome::Ended(png, true)),
            Ok(format!("data:image/png;base64,{encoded}"))
        );
    }
    assert_eq!(
        qr_image(Outcome::Ended(b"\x89PNG".to_vec(), true)),
        Err("Cannot generate QR; install qrencode")
    );
    assert_eq!(
        qr_image(Outcome::NotStarted),
        Err("Required helper unavailable; check ADB/Avahi/qrencode dependencies")
    );
}

fn line(rows: &mut Rows, text: &str) -> Vec<Service> {
    match rows.browse(Read::Line(text.as_bytes().to_vec())) {
        Ok(Some(services)) => services,
        _ => panic!(),
    }
}

#[test]
fn advertisements_come_and_go_by_themselves() {
    let mut rows = Rows::new();
    line(&mut rows, "=;wlan0;IPv6;b;_adb-tls-connect._tcp;local;h;fe80::1;1");
    line(&mut rows, "=;wlan0;IPv4;b;_adb-tls-connect._tcp;local;h;1.2.3.4;1");
    let s = line(&mut rows, "=;eth0;IPv4;b;_adb-tls-connect._tcp;local;h;5.6.7.8;1");
    let addresses: Vec<_> = s.iter().map(|s| s.address.clone()).collect();
    assert_eq!(addresses, vec!["5.6.7.8:1", "1.2.3.4:1", "[fe80::1]:1"]);
    let s = line(&mut rows, "=;wlan0;IPv4;b;_adb-tls-connect._tcp;local;h;1.2.3.9;1");
    assert_eq!(s.len(), 3);
    assert_eq!(s[1].address, "1.2.3.9:1");
    let s = line(&mut rows, "-;wlan0;IPv4;b;_adb-tls-connect._tcp;local");
    let addresses: Vec<_> = s.iter().map(|s| s.address.clone()).collect();
    assert_eq!(addresses, vec!["5.6.7.8:1", "[fe80::1]:1"]);
    assert_eq!(rows.services().len(), 2);
}

#[test]
fn advertisements_are_bounded() {
    let mut rows = Rows::new();
    for i in 0..130 {
        line(&mut rows, &format!("=;w;IPv4;n{i:03};_adb-tls-connect._tcp;local;h;1.2.3.4;1"));
    }
    assert_eq!(rows.services().len(), 128);
    let s = line(&mut rows, "=;w;IPv4;n000;_adb-tls-connect._tcp;local;h;1.2.3.4;2");
    assert_eq!(s.len(), 128);
    assert_eq!(s[0].address, "1.2.3.4:2");
}

#[test]
fn discovery_ends_with_a_reason() {
    let mut rows = Rows::new();
    for (read, error) in [
        (Read::Failed, "mDNS discovery stopped; check avahi-daemon"),
        (Read::Line(vec![]), "mDNS discovery stopped; install avahi and start avahi-daemon"),
        (Read::Line(vec![b'a'; 8193]), "Oversized mDNS discovery event"),
    ] {
        assert_eq!(rows.browse(read), Err(error));
    }
    assert_eq!(rows.browse(Read::Line(b"\xff\n".to_vec())), Ok(None));
    assert_eq!(rows.browse(Read::Line(b"+;x\n".to_vec())), Ok(None));
}

fn attempt() -> Attempt {
    let env = Environment { on_path: true, home: None, server_socket: None, server_port: None };
    let adb = Adb::new("adb".into(), &env).unwrap();
    let (a, turn) = Attempt::new(adb, Some([0x0a; 8]), Some([0xb0; 16]));
    assert!(turn.status.is_none());
    match turn.action {
        QrAction::Image(call) => assert_eq!(
            call.input,
            Some(
                format!("WIFI:T:ADB;S:studio-{};P:{};;", "0a".repeat(8), "b0".repeat(16))
                    .into_bytes()
            )
        ),
        _ => panic!(),
    }
    a
}

fn name() -> String {
    format!("studio-{}", "0a".repeat(8))
}

fn scanning() -> Attempt {
    let mut a = attempt();
    let turn = a.run_at(QrEvent::Image(Outcome::Ended(PNG.to_vec(), true)), 0);
    let status = turn.status.unwrap();
    assert!(status.active);
    assert_eq!(status.image, "data:image/png;base64,iVBORw0KGgo=");
    assert_eq!(
        status.message,
        "On Android: Wireless debugging → Pair device with QR code. Scan within 2 minutes"
    );
    assert!(matches!(turn.action, QrAction::See));
    a
}

fn paired(guid: &str) -> Attempt {
    let mut a = scanning();
    assert!(matches!(a.run_at(QrEvent::Services(vec![]), 0).action, QrAction::Scan));
    let services = vec![
        service("other", "_adb-tls-pairing._tcp", "9.9.9.9:9", "o"),
        service(&name(), "_adb-tls-pairing._tcp", "1.2.3.4:5", "t"),
        service(&name(), "_adb-tls-pairing._tcp", "[fe80::1]:5", "t"),
    ];
    let turn = a.run_at(QrEvent::Services(services), 0);
    assert_eq!(turn.status.unwrap().message, "Phone found. Pairing…");
    match turn.action {
        QrAction::Pair(call) => {
            assert_eq!(call.args, vec!["pair", "1.2.3.4:5"]);
            assert_eq!(call.input, Some(format!("{}\n", "b0".repeat(16)).into_bytes()));
        }
        _ => panic!(),
    }
    let answer = format!("Successfully paired to x [guid={guid}]").into_bytes();
    let turn = a.run_at(QrEvent::Paired(Ok(answer)), SECOND);
    let status = turn.status.unwrap();
    assert_eq!(status.message, "Paired. Waiting for ADB's automatic Wi-Fi connection…");
    assert!(status.image.is_empty() && status.active);
    assert!(matches!(turn.action, QrAction::Look));
    a
}

fn look(a: &mut Attempt, devices: Vec<Device>, services: Vec<Service>, now: u128) -> QrTurn {
    a.run_at(QrEvent::Changed { devices, services }, now)
}

fn over(turn: QrTurn) -> (String, Result<(), &'static str>) {
    let status = turn.status.unwrap();
    assert!(!status.active && status.image.is_empty());
    match turn.action {
        QrAction::End(result) => (status.message, result),
        _ => panic!(),
    }
}

#[test]
fn a_phone_is_paired_and_connects_by_itself() {
    let mut a = paired("g");
    assert!(matches!(look(&mut a, vec![], vec![], SECOND).action, QrAction::Watch(t) if t == 4 * SECOND));
    let ds = vec![device("adb-g._adb-tls-connect._tcp", "device")];
    let (message, result) = over(look(&mut a, ds, vec![], 2 * SECOND));
    assert_eq!(message, "Paired and connected. Select your phone, then enable sync");
    assert_eq!(result, Ok(()));
    assert!(matches!(a.run_at(QrEvent::Cancelled, 0).action, QrAction::Nothing));
}

#[test]
fn a_phone_is_connected_explicitly_once() {
    let services = || vec![service("adb-g", "_adb-tls-connect._tcp", "1.2.3.4:6", "t")];
    let mut a = paired("g");
    assert!(matches!(look(&mut a, vec![], services(), 4 * SECOND - 1).action, QrAction::Watch(_)));
    let tick = QrEvent::Tick { devices: vec![], services: services() };
    match a.run_at(tick, 4 * SECOND).action {
        QrAction::Dial(call) => assert_eq!(call.args, vec!["connect", "1.2.3.4:6"]),
        _ => panic!(),
    }
    let turn = a.run_at(QrEvent::Dialed(Ok(b"connected to x".to_vec())), 5 * SECOND);
    assert!(matches!(turn.action, QrAction::Watch(t) if t == 11 * SECOND));
    assert!(matches!(look(&mut a, vec![], services(), 6 * SECOND).action, QrAction::Watch(_)));
    let tick = QrEvent::Tick { devices: vec![], services: services() };
    let (message, result) = over(a.run_at(tick, 11 * SECOND));
    assert_eq!(
        message,
        "Paired. If absent, use the main Wireless debugging connection address below"
    );
    assert_eq!(result, Ok(()));
}

fn pairs_at(addresses: &[&str]) -> Vec<String> {
    let services = addresses
        .iter()
        .map(|a| service(&name(), "_adb-tls-pairing._tcp", a, "t"))
        .collect();
    match scanning().run_at(QrEvent::Services(services), 0).action {
        QrAction::Pair(call) => call.args,
        _ => panic!(),
    }
}

#[test]
fn an_ipv4_endpoint_is_preferred() {
    assert_eq!(pairs_at(&["[fe80::1]:5", "1.2.3.4:6"]), vec!["pair", "1.2.3.4:6"]);
    assert_eq!(pairs_at(&["1.2.3.4:6", "[fe80::1]:5"]), vec!["pair", "1.2.3.4:6"]);
    assert_eq!(pairs_at(&["[fe80::1]:5", "1.2.3.4:6", "1.2.3.5:7"]), vec!["pair", "1.2.3.4:6"]);
    assert_eq!(pairs_at(&["[fe80::1]:5", "[fe80::2]:5"]), vec!["pair", "[fe80::1]:5"]);
}

#[test]
fn the_ipv4_row_of_a_later_interface_is_paired_with() {
    let mut rows = Rows::new();
    let n = name();
    line(&mut rows, &format!("=;eth0;IPv6;{n};_adb-tls-pairing._tcp;local;h;fe80::1;5"));
    let services =
        line(&mut rows, &format!("=;wlan0;IPv4;{n};_adb-tls-pairing._tcp;local;h;1.2.3.4;6"));
    assert_eq!(services[0].address, "[fe80::1]:5");
    match scanning().run_at(QrEvent::Services(services), 0).action {
        QrAction::Pair(call) => assert_eq!(call.args, vec!["pair", "1.2.3.4:6"]),
        _ => panic!(),
    }
}

#[test]
fn several_phones_are_refused() {
    let mut a = scanning();
    let services = vec![
        service(&name(), "_adb-tls-pairing._tcp", "1.2.3.4:5", "t"),
        service("x", "_adb-tls-pairing._tcp", "1.2.3.4:5", "v"),
        service(&name(), "_adb-tls-pairing._tcp", "1.2.3.5:5", "u"),
    ];
    let (message, result) = over(a.run_at(QrEvent::Services(services), 0));
    assert_eq!(message, "Multiple phones scanned this QR; cancel and pair one phone at a time");
    assert_eq!(result, Err("Multiple phones scanned this QR; cancel and pair one phone at a time"));
}

#[test]
fn attempts_end_with_a_reason() {
    for (event, message, failed) in [
        (QrEvent::Cancelled, "QR pairing closed", false),
        (
            QrEvent::Expired,
            "QR expired. Generate a new code; allow mDNS on the same Wi-Fi network",
            false,
        ),
        (QrEvent::PairingStopped(None), "mDNS pairing discovery stopped", true),
        (QrEvent::PairingStopped(Some("x")), "x", true),
        (QrEvent::ConnectionStopped(None), "mDNS connection discovery stopped", true),
        (QrEvent::ConnectionStopped(Some("y")), "y", true),
        (
            QrEvent::Image(Outcome::TimedOut),
            "Command timed out; unlock or reconnect the phone",
            true,
        ),
    ] {
        let (text, result) = over(attempt().run_at(event, 0));
        assert_eq!(text, message);
        assert_eq!(result.is_err(), failed);
    }
    let (text, _) = over(scanning().run_at(QrEvent::ServicesGone, 0));
    assert_eq!(text, "mDNS pairing discovery stopped");
    let (text, _) = over(paired("g").run_at(QrEvent::DevicesGone, 0));
    assert_eq!(text, "ADB tracking stopped");
    let (text, _) = over(paired("g").run_at(QrEvent::ConnectionsGone, 0));
    assert_eq!(text, "mDNS connection discovery stopped");
    assert!(matches!(attempt().run(QrEvent::Cancelled).action, QrAction::End(Ok(()))));
    assert!(attempt().now() < 60 * SECOND);
}

#[test]
fn an_attempt_needs_randomness() {
    let env = Environment { on_path: true, home: None, server_socket: None, server_port: None };
    let adb = Adb::new("adb".into(), &env).unwrap();
    let (_, turn) = Attempt::new(adb, Some([0; 8]), None);
    assert_eq!(over(turn).1, Err("System randomness unavailable"));
    let none = Status::default();
    assert!(none.image.is_empty() && none.message.is_empty() && !none.clone().active);
}
