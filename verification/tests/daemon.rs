use omaclip::adb::{parse_devices, Adb, Device, Environment};
use omaclip::command::{read_line, Json, Member};
use omaclip::config::Config;
use omaclip::daemon::{
    action_message, action_result, Daemon, Event, Reply, SessionEnd, Step,
};
use omaclip::pairing;

const SECOND: u128 = 1_000_000_000;
const STOPPED: Reply = Reply::Stopped { running: false };

fn adb() -> Adb {
    let env = Environment { on_path: true, home: None, server_socket: None, server_port: None };
    Adb::new("adb".into(), &env).unwrap()
}

fn daemon(serial: &str, identity: &str, enabled: bool) -> Daemon {
    let config = Config { serial: serial.into(), identity: identity.into(), enabled };
    Daemon::new(adb(), Config::load(Some(config)))
}

fn observe(d: &mut Daemon, devices: Vec<Device>, error: Option<&'static str>) {
    assert!(matches!(d.run_at(Event::Listed { devices, error }, 0), Step::Done));
}

fn line(text: &str) -> Json {
    match read_line(text.as_bytes()) {
        Ok(json) => json,
        Err(_) => panic!(),
    }
}

fn saved(step: Step) -> Config {
    match step {
        Step::Save(config) => config,
        _ => panic!(),
    }
}

/// Carries a command out up to the point where the pause is stored.
fn pause(d: &mut Daemon, text: &str) -> Step {
    assert!(matches!(d.command(&line(text)), Step::StopQr));
    assert!(matches!(d.proceed(STOPPED, 0), Step::StopSession));
    let config = saved(d.proceed(STOPPED, 0));
    assert!(!config.enabled);
    assert_eq!(d.status().state, "paused");
    assert_eq!(d.status().message, "Paused; no clipboard changes are being shared");
    d.proceed(Reply::Saved(Ok(())), 0)
}

#[test]
fn lines_hold_json() {
    match line("{\"op\":\"pair\",\"n\":1,\"b\":true,\"l\":[1],\"o\":{},\"z\":null}") {
        Json::Object(members) => {
            assert_eq!(members.len(), 6);
            for (name, member) in members {
                assert!(match name.as_str() {
                    "op" => matches!(member, Member::Text(t) if t == "pair"),
                    "n" => matches!(member, Member::Number),
                    "b" => matches!(member, Member::Bool(true)),
                    "l" => matches!(member, Member::List),
                    "o" => matches!(member, Member::Object),
                    "z" => matches!(member, Member::Null),
                    _ => false,
                });
            }
        }
        _ => panic!(),
    }
    assert!(matches!(line("null"), Json::Null));
    assert!(matches!(line("true"), Json::Bool(true)));
    assert!(matches!(line("1.5"), Json::Number));
    assert!(matches!(line("\"x\""), Json::Text(_)));
    assert!(matches!(line("[]"), Json::List));
    assert_eq!(read_line(b"{").err(), Some("Invalid JSON command"));
    assert_eq!(
        read_line(&vec![b' '; 8193]).err(),
        Some("Oversized JSON command; bridge input closed")
    );
    assert_eq!(line("{\"op\":\"a\",\"op\":\"b\"}").text("op"), Some("b".into()));
    assert_eq!(line("{\"enabled\":false}").flag("enabled"), Some(false));
    assert_eq!(line("{\"enabled\":\"x\"}").flag("enabled"), None);
}

#[test]
fn a_phone_is_selected() {
    let mut d = daemon("", "", false);
    observe(&mut d, parse_devices("S device model:Pixel transport_id:3\n"), None);
    match pause(&mut d, "{\"op\":\"select\",\"serial\":\"S\"}") {
        Step::Identify(call) => {
            assert_eq!(call.args, vec!["-t", "3", "shell", "getprop", "ro.serialno"])
        }
        _ => panic!(),
    }
    let config = saved(d.proceed(Reply::Identified(Ok(b"ID\n".to_vec())), 0));
    assert_eq!((config.serial.as_str(), config.identity.as_str()), ("S", "ID"));
    assert!(!config.enabled);
    assert!(matches!(d.proceed(Reply::Saved(Ok(())), 0), Step::Done));
    let status = d.status();
    assert_eq!(status.selected, "S");
    assert_eq!(status.message, "Phone selected. Enable sync to share future copies");
    assert_eq!(status.devices.len(), 1);
    assert!(!status.enabled);
}

#[test]
fn bad_selections_are_refused() {
    for (text, message) in [
        ("{\"op\":\"select\"}", "Select a ready phone from the list"),
        ("{\"op\":\"select\",\"serial\":1}", "Select a ready phone from the list"),
        (
            "{\"op\":\"select\",\"serial\":\"T\"}",
            "Select a ready, authorized phone from the list",
        ),
        (
            "{\"op\":\"select\",\"serial\":\"U\"}",
            "Select a ready, authorized phone from the list",
        ),
        (
            "{\"op\":\"select\",\"serial\":\"S\"}",
            "ADB omitted transport IDs; update platform-tools",
        ),
    ] {
        let mut d = daemon("old", "ID", true);
        observe(&mut d, parse_devices("S device\nU offline transport_id:1\n"), None);
        assert!(matches!(pause(&mut d, text), Step::Done));
        assert_eq!(d.status().action, message);
        assert_eq!(d.status().selected, "old");
        assert!(!d.status().enabled);
    }
    let mut d = daemon("", "", false);
    observe(&mut d, parse_devices("S device transport_id:3\n"), None);
    pause(&mut d, "{\"op\":\"select\",\"serial\":\"S\"}");
    assert!(matches!(d.proceed(Reply::Identified(Ok(b"unknown".to_vec())), 0), Step::Done));
    assert_eq!(
        d.status().action,
        "Phone exposes no stable ro.serialno; cannot safely reconnect"
    );
    let mut d = daemon("", "", false);
    observe(&mut d, parse_devices("S device transport_id:3\n"), None);
    pause(&mut d, "{\"op\":\"select\",\"serial\":\"S\"}");
    d.proceed(Reply::Identified(Err("helper")), 0);
    assert_eq!(d.status().action, "helper");
}

#[test]
fn sharing_is_enabled_and_paused() {
    let mut d = daemon("S", "ID", false);
    let config = saved(pause(&mut d, "{\"op\":\"enable\",\"enabled\":true}"));
    assert!(config.enabled);
    assert!(matches!(d.proceed(Reply::Saved(Ok(())), 0), Step::Done));
    assert_eq!(d.status().message, "Connecting; existing clipboards are preserved");
    let config = saved(pause(&mut d, "{\"op\":\"enable\",\"enabled\":false}"));
    assert!(!config.enabled);
    assert_eq!(d.status().message, "Paused; copies made while paused will not be replayed");
    d.proceed(Reply::Saved(Err("disk")), 0);
    assert_eq!(d.status().action, "disk");
    let mut d = daemon("S", "ID", true);
    assert!(matches!(pause(&mut d, "{\"op\":\"enable\"}"), Step::Done));
    assert_eq!(d.status().action, "enabled must be true or false");
    let mut d = daemon("", "", false);
    assert!(matches!(pause(&mut d, "{\"op\":\"enable\",\"enabled\":true}"), Step::Done));
    assert_eq!(d.status().action, "Select a phone before enabling clipboard sync");
    assert!(!d.status().enabled);
}

#[test]
fn the_phone_is_disconnected() {
    let mut d = daemon("S", "ID", true);
    let config = saved(pause(&mut d, "{\"op\":\"disconnect\"}"));
    assert!(config.serial.is_empty() && config.identity.is_empty() && !config.enabled);
    d.proceed(Reply::Saved(Ok(())), 0);
    assert_eq!(d.status().message, "Disconnected; no phone selected");
    let mut d = daemon("S", "ID", true);
    d.command(&line("{\"op\":\"disconnect\"}"));
    d.proceed(STOPPED, 0);
    d.proceed(STOPPED, 0);
    assert!(matches!(d.proceed(Reply::Saved(Err("disk full")), 0), Step::Done));
    assert_eq!(d.status().action, "disk full");
    assert_eq!(d.status().selected, "S");
}

#[test]
fn bad_commands_change_nothing() {
    for (text, message) in [
        ("[]", "Expected a JSON command object"),
        ("{}", "Expected a JSON command object"),
        ("{\"op\":1}", "Expected a JSON command object"),
        (
            "{\"op\":\"reboot\"}",
            "Unknown command; use refresh, select, enable, disconnect, qr_start, qr_cancel, pair or connect",
        ),
    ] {
        let mut d = daemon("S", "ID", true);
        assert!(matches!(d.command(&line(text)), Step::Done));
        assert_eq!(d.status().action, message);
        assert!(d.status().enabled);
    }
    let mut d = daemon("S", "ID", true);
    d.run_at(Event::Command(Err("Invalid JSON command")), 0);
    assert_eq!(d.status().action, "Invalid JSON command");
}

#[test]
fn qr_attempts_start_and_close() {
    let mut d = daemon("", "", false);
    d.run_at(Event::Qr(pairing::Status { image: "i".into(), message: "m".into(), active: true }), 0);
    let status = d.status();
    assert_eq!((status.action.as_str(), status.qr_image.as_str()), ("m", "i"));
    assert!(status.qr_active);
    d.command(&line("{\"op\":\"qr_cancel\"}"));
    assert!(matches!(d.proceed(STOPPED, 0), Step::Done));
    let status = d.status();
    assert_eq!(status.action, "QR pairing closed");
    assert!(status.qr_image.is_empty() && !status.qr_active);
    d.command(&line("{\"op\":\"qr_start\"}"));
    assert!(matches!(d.proceed(STOPPED, 0), Step::StartQr));
    assert_eq!(d.status().action, "Generating QR code…");
    d.command(&line("{\"op\":\"qr_start\"}"));
    assert!(matches!(d.proceed(Reply::Stopped { running: true }, 0), Step::Done));
    assert_eq!(d.status().action, "Wait for the current Wi-Fi action to finish");
}

#[test]
fn wifi_actions_are_started() {
    let mut d = daemon("", "", false);
    d.command(&line("{\"op\":\"pair\",\"address\":\"a:1\",\"code\":\"123456\"}"));
    assert!(matches!(d.proceed(STOPPED, 0), Step::StopAction));
    match d.proceed(STOPPED, 0) {
        Step::StartAction { pair, call } => {
            assert!(pair);
            let call = call.unwrap();
            assert_eq!(call.args, vec!["pair", "a:1"]);
            assert_eq!(call.input, Some(b"123456\n".to_vec()));
        }
        _ => panic!(),
    }
    assert_eq!(d.status().action, "Pairing…");
    d.command(&line("{\"op\":\"connect\",\"address\":\"a:1\"}"));
    d.proceed(STOPPED, 0);
    match d.proceed(STOPPED, 0) {
        Step::StartAction { pair, call } => {
            assert!(!pair);
            assert_eq!(call.unwrap().args, vec!["connect", "a:1"]);
        }
        _ => panic!(),
    }
    assert_eq!(d.status().action, "Connecting Wi-Fi…");
    d.command(&line("{\"op\":\"pair\",\"address\":\"a:1\"}"));
    d.proceed(STOPPED, 0);
    match d.proceed(STOPPED, 0) {
        Step::StartAction { call, .. } => assert_eq!(
            call.err(),
            Some("Invalid pairing code; generate a new code on the phone")
        ),
        _ => panic!(),
    }
    for (text, message) in [
        ("{\"op\":\"connect\"}", "Enter the phone address and port"),
        (
            "{\"op\":\"connect\",\"address\":\"a\"}",
            "Use host:port or [IPv6]:port; pairing and connection ports differ",
        ),
    ] {
        d.command(&line(text));
        d.proceed(STOPPED, 0);
        assert!(matches!(d.proceed(STOPPED, 0), Step::Done));
        assert_eq!(d.status().action, message);
    }
    d.command(&line("{\"op\":\"connect\",\"address\":\"a:1\"}"));
    assert!(matches!(d.proceed(Reply::Stopped { running: true }, 0), Step::Done));
    d.run_at(Event::Action("done".into()), 0);
    assert_eq!(d.status().action, "done");
}

#[test]
fn wifi_actions_are_judged() {
    assert_eq!(action_result(true, Ok(b"Successfully paired".to_vec())), Ok(()));
    assert!(action_result(true, Ok(b"connected to x".to_vec())).is_err());
    assert_eq!(action_result(false, Ok(b"connected to x".to_vec())), Ok(()));
    assert!(action_result(false, Ok(b"Successfully paired".to_vec())).is_err());
    assert_eq!(action_result(false, Err("x")), Err("x"));
    assert_eq!(
        action_message(true, Ok(())),
        "Paired. Use the separate connection port from Wireless debugging"
    );
    assert_eq!(
        action_message(false, Ok(())),
        "ADB connected. Select the intended phone from the list"
    );
    assert_eq!(action_message(true, Err("no")), "no");
}

fn known(serial: &str, transport: &str, identity: &str) -> Device {
    let mut d = parse_devices(&format!("{serial} device transport_id:5\n")).remove(0);
    d.transport = transport.into();
    d.identity = Some(identity.into());
    d
}

#[test]
fn sessions_start_on_the_remembered_transport() {
    let mut d = daemon("S", "ID", true);
    observe(&mut d, parse_devices("T device transport_id:1\nS device transport_id:2\n"), None);
    match d.reconcile(0) {
        Step::StartSession { device, identity } => {
            assert_eq!(device.serial, "S");
            assert_eq!(identity, "ID");
        }
        _ => panic!(),
    }
    assert_eq!(d.status().state, "connecting");
    assert!(matches!(d.reconcile(0), Step::Done));
    d.run_at(Event::Ready(false), 0);
    assert_eq!(d.status().state, "connecting");
    d.run_at(Event::Ready(true), 0);
    assert_eq!(d.status().state, "syncing");
    assert_eq!(d.status().message, "Sharing new plain-text copies");
}

#[test]
fn sessions_move_to_another_transport_of_the_phone() {
    let mut d = daemon("S", "ID", true);
    observe(&mut d, vec![known("S", "USB", "ID")], None);
    assert!(matches!(d.reconcile(0), Step::StartSession { .. }));
    observe(
        &mut d,
        vec![
            known("S", "USB", "OTHER"),
            known("w:1", "Wi-Fi", "ID"),
            known("adb-x._adb-tls-connect._tcp", "Wi-Fi", "ID"),
        ],
        None,
    );
    assert!(matches!(d.reconcile(0), Step::StopSession));
    let config = saved(d.proceed(STOPPED, 0));
    assert_eq!(config.serial, "adb-x._adb-tls-connect._tcp");
    assert_eq!(config.identity, "ID");
    match d.proceed(Reply::Saved(Err("disk")), 0) {
        Step::StartSession { device, .. } => {
            assert_eq!(device.serial, "adb-x._adb-tls-connect._tcp")
        }
        _ => panic!(),
    }
    assert_eq!(d.status().action, "disk");
}

#[test]
fn a_reused_endpoint_is_kept_visible() {
    let mut d = daemon("S", "ID", true);
    observe(&mut d, vec![known("S", "USB", "OTHER")], None);
    match d.reconcile(0) {
        Step::StartSession { device, identity } => {
            assert_eq!(device.serial, "S");
            assert_eq!(identity, "ID");
        }
        _ => panic!(),
    }
}

#[test]
fn a_missing_phone_is_waited_for() {
    for (list, error, message) in [
        ("", None, "Waiting for remembered phone over USB or paired Wi-Fi"),
        ("", Some("tracking failed"), "tracking failed"),
        ("S offline\n", None, "Phone offline; reconnect USB or Wi-Fi"),
        ("S unauthorized\n", None, "Unlock phone and accept USB debugging authorization"),
        ("S authorizing\n", None, "Unlock phone and accept USB debugging authorization"),
        (
            "S no permissions\n",
            Some("x"),
            "USB permission denied; install android-udev and reconnect",
        ),
    ] {
        let mut d = daemon("S", "ID", true);
        observe(&mut d, parse_devices(list), error);
        assert!(matches!(d.reconcile(0), Step::Done));
        assert_eq!(d.status().state, "waiting");
        assert_eq!(d.status().message, message);
    }
    let mut d = daemon("S", "ID", false);
    assert!(matches!(d.reconcile(0), Step::Done));
    assert_eq!(d.status().state, "paused");
    assert_eq!(d.status().message, "Select one phone, then enable clipboard sync");
}

#[test]
fn sessions_back_off() {
    let mut d = daemon("S", "ID", true);
    observe(&mut d, parse_devices("S device transport_id:2\n"), None);
    let mut now = 0;
    for wait in [2, 4, 8, 15, 15] {
        assert!(matches!(d.reconcile(now), Step::StartSession { .. }));
        assert!(matches!(d.run_at(Event::Ended(SessionEnd::Finished(Err("lost"))), now), Step::Suspend));
        assert!(matches!(d.proceed(STOPPED, now), Step::Done));
        assert_eq!(d.status().state, "waiting");
        assert_eq!(d.status().message, "lost");
        assert!(d.patience().is_some());
        now += wait * SECOND;
        assert!(matches!(d.reconcile(now - 1), Step::Done));
    }
    d.run_at(Event::Due, 0);
    assert!(d.patience().is_none());
    assert!(matches!(d.reconcile(now - 1), Step::StartSession { .. }));
    d.run_at(Event::Ended(SessionEnd::Broken), 0);
    d.proceed(STOPPED, now);
    assert_eq!(d.status().message, "Clipboard session stopped; reconnect phone");
    assert!(matches!(d.reconcile(now), Step::Done));
    assert!(matches!(d.command(&line("{\"op\":\"refresh\"}")), Step::Done));
    assert!(matches!(d.reconcile(now), Step::StartSession { .. }));
    d.run_at(Event::Ended(SessionEnd::Finished(Ok(()))), 0);
    d.proceed(STOPPED, now);
    assert_eq!(d.status().message, "Clipboard session ended; reconnecting");
}

#[test]
fn status_is_published_on_change() {
    let mut d = daemon("S", "ID", false);
    assert!(d.publish().is_some());
    assert!(d.publish().is_none());
    d.run_at(Event::Command(Err("x")), 0);
    assert_eq!(d.publish().unwrap().action, "x");
    assert!(d.publish().is_none());
}

#[test]
fn the_clock_of_the_daemon_runs() {
    let mut d = daemon("S", "ID", true);
    observe(&mut d, parse_devices("S device transport_id:2\n"), None);
    assert!(matches!(d.run(Event::Settle), Step::StartSession { .. }));
    d.run_at(Event::Ended(SessionEnd::Broken), 0);
    assert!(matches!(d.run(Event::Worked(STOPPED)), Step::Done));
    let left = d.patience().unwrap();
    assert!(left <= 2 * SECOND && left > SECOND);
    assert!(d.now() < 60 * SECOND);
}

#[test]
fn stored_state_is_sanitized() {
    let load = |serial: &str, identity: &str| {
        Config::load(Some(Config {
            serial: serial.into(),
            identity: identity.into(),
            enabled: true,
        }))
    };
    assert!(load("S", "ID").enabled);
    assert!(!load("", "ID").enabled);
    assert!(!load("S", "").enabled);
    assert_eq!(load("S", "").serial, "S");
    assert!(load(&"s".repeat(513), "ID").serial.is_empty());
    assert!(load("S", &"i".repeat(257)).identity.is_empty());
    assert!(load(&"s".repeat(512), &"i".repeat(256)).enabled);
    let none = Config::load(None);
    assert!(none.serial.is_empty() && none.identity.is_empty() && !none.clone().enabled);
    assert!(Config::fits(8192));
    assert!(!Config::fits(8193));
}
