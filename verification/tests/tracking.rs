use omaclip::adb::{parse_devices, Adb, Environment};
use omaclip::tracking::{begin_tracking, tracking_request, Setup, TrackEvent, Tracker};

fn list(raw: &str) -> TrackEvent {
    TrackEvent::Frame(parse_devices(raw))
}

#[test]
fn tracking_begins_with_a_handshake() {
    let env = Environment { on_path: true, home: None, server_socket: None, server_port: None };
    let call = Adb::new("adb".into(), &env).unwrap().start_server();
    assert_eq!(call.args, vec!["start-server"]);
    assert_eq!(call.seconds, 10);
    assert_eq!(tracking_request(), b"0014host:track-devices-l".to_vec());
    assert_eq!(begin_tracking(Setup::Status(*b"OKAY")), Ok(()));
    for (setup, error) in [
        (Setup::NotStarted("no"), "no"),
        (Setup::ConnectTimedOut, "ADB tracking connect timed out"),
        (Setup::ConnectFailed, "Cannot connect to ADB server"),
        (Setup::RequestFailed, "ADB tracking failed"),
        (Setup::StatusTimedOut, "ADB tracking handshake timed out"),
        (Setup::StatusFailed, "ADB tracking failed"),
        (
            Setup::Status(*b"FAIL"),
            "ADB device tracking unsupported; update platform-tools",
        ),
    ] {
        assert_eq!(begin_tracking(setup), Err(error));
    }
}

#[test]
fn phones_are_asked_and_remembered() {
    let mut t = Tracker::new();
    let turn = t.track(TrackEvent::Began);
    assert!(turn.devices.is_none() && turn.probes.is_empty());
    let turn = t.track(list("a device transport_id:1\nb offline\n"));
    assert!(turn.abort);
    assert!(turn.error.is_none());
    assert_eq!(turn.devices.unwrap().len(), 2);
    assert_eq!(turn.probes.len(), 1);
    assert_eq!(turn.probes[0].serial, "a");
    assert_eq!(turn.generation, 1);
    let asked = turn.probes[0].clone();
    let turn = t.track(TrackEvent::Probed {
        generation: 1,
        device: asked,
        identity: Some("A".into()),
    });
    assert!(!turn.abort && turn.probes.is_empty());
    assert_eq!(turn.devices.unwrap()[0].identity.as_deref(), Some("A"));
    let turn = t.track(list("a device transport_id:1\n"));
    assert_eq!(turn.generation, 2);
    assert!(turn.probes.is_empty());
    assert_eq!(turn.devices.unwrap()[0].identity.as_deref(), Some("A"));
    let turn = t.track(list("a device transport_id:1\n"));
    assert!(turn.devices.is_none());
    let turn = t.track(list("a device transport_id:2\n"));
    assert_eq!(turn.probes.len(), 1);
    assert_eq!(turn.devices.unwrap()[0].identity, None);
}

#[test]
fn late_answers_are_dropped() {
    let mut t = Tracker::new();
    t.track(TrackEvent::Began);
    let asked = t.track(list("a device transport_id:1\n")).probes[0].clone();
    t.track(list("a device transport_id:1\n"));
    let turn = t.track(TrackEvent::Probed {
        generation: 1,
        device: asked.clone(),
        identity: Some("A".into()),
    });
    assert!(turn.devices.is_none());
    let turn = t.track(TrackEvent::Probed {
        generation: 2,
        device: asked,
        identity: Some("B".into()),
    });
    assert_eq!(turn.devices.unwrap()[0].identity.as_deref(), Some("B"));
}

#[test]
fn few_phones_are_asked_at_a_time() {
    let mut t = Tracker::new();
    t.track(TrackEvent::Began);
    let raw = "a device transport_id:1\na device transport_id:1\nb device transport_id:2\n\
               c device transport_id:3\nd device transport_id:4\ne device transport_id:5\n";
    let turn = t.track(list(raw));
    let serials: Vec<_> = turn.probes.iter().map(|d| d.serial.clone()).collect();
    assert_eq!(serials, vec!["a", "b", "c", "d"]);
    let first = turn.probes[0].clone();
    let turn =
        t.track(TrackEvent::Probed { generation: 1, device: first, identity: None });
    assert_eq!(turn.probes.len(), 1);
    assert_eq!(turn.probes[0].serial, "e");
    let turn = t.track(list(raw));
    assert!(turn.probes.is_empty());
    let turn = t.track(TrackEvent::Aborted);
    assert_eq!(turn.probes[0].serial, "b");
}

#[test]
fn failures_back_off() {
    let mut t = Tracker::new();
    for (pause, error) in [(1, "x"), (2, "y"), (4, "z"), (8, "x"), (15, "x"), (15, "x")] {
        let turn = t.track(TrackEvent::Ended(error));
        assert_eq!(turn.pause, Some(pause));
        assert_eq!(turn.error, Some(Some(error)));
        assert!(turn.devices.unwrap().is_empty());
    }
    t.track(TrackEvent::Began);
    let turn = t.track(list("a offline\n"));
    assert_eq!(turn.error, Some(None));
    assert_eq!(t.track(TrackEvent::Ended("x")).pause, Some(1));
}
