use omaclip::adb::{
    competitors_result, connect_result, endpoint, frame_length, group, identity_of, local_scrcpy,
    other_server, pair_result, paired, parse_devices, track_frame, Adb, Device, Environment,
    Identities, Process,
};

fn plain() -> Environment {
    Environment { on_path: true, home: None, server_socket: None, server_port: None }
}

fn device(serial: &str, transport: &str, identity: Option<&str>) -> Device {
    Device {
        serial: serial.into(),
        state: "device".into(),
        model: "m".into(),
        transport: transport.into(),
        id: "1".into(),
        identity: identity.map(|s| s.into()),
        connections: vec![],
    }
}

#[test]
fn device_list_is_parsed() {
    let raw = "R58M\tdevice usb:1-2 product:x model:Pixel_7 device:p transport_id:4\r\n\
               192.168.1.5:5555 offline transport_id:7\n\
               adb-1-a._adb-tls-connect._tcp unauthorized\n\
               X no permissions (user in plugdev group); see [http]\n\
               Y recovery\n\
               Z\n\n";
    let ds = parse_devices(raw);
    assert_eq!(ds.len(), 4);
    assert_eq!(ds[0].serial, "R58M");
    assert_eq!(ds[0].state, "device");
    assert_eq!(ds[0].model, "Pixel 7");
    assert_eq!(ds[0].transport, "USB");
    assert_eq!(ds[0].id, "4");
    assert_eq!(ds[0].identity, None);
    assert_eq!(ds[0].key(), ("R58M", "4"));
    assert_eq!(ds[1].transport, "Wi-Fi");
    assert_eq!(ds[1].model, "192.168.1.5:5555");
    assert_eq!(ds[2].transport, "Wi-Fi");
    assert_eq!(ds[2].state, "unauthorized");
    assert_eq!(ds[2].model, "adb-1-a. adb-tls-connect. tcp");
    assert_eq!(ds[2].id, "");
    assert_eq!(ds[3].state, "no permissions");
}

#[test]
fn device_list_is_bounded() {
    let mut raw = String::new();
    for i in 0..70 {
        raw.push_str(&format!("s{i} device\n"));
    }
    let ds = parse_devices(&raw);
    assert_eq!(ds.len(), 64);
    assert_eq!(ds[63].serial, "s63");
    let long = "a".repeat(513);
    assert!(parse_devices(&format!("{long} device")).is_empty());
    let longest = "a".repeat(512);
    assert_eq!(parse_devices(&format!("{longest} device")).len(), 1);
}

#[test]
fn transports_of_one_phone_are_one_row() {
    let ds = vec![
        device("192.168.1.2:5555", "Wi-Fi", Some("P")),
        device("adb-P._adb-tls-connect._tcp", "Wi-Fi", Some("P")),
        device("USB1", "USB", Some("P")),
        device("b", "USB", None),
        device("a", "USB", None),
    ];
    let rows = group(&ds, "");
    assert_eq!(rows.len(), 3);
    assert_eq!(rows[0].serial, "a");
    assert_eq!(rows[1].serial, "b");
    assert_eq!(rows[2].serial, "USB1");
    assert_eq!(
        rows[2].connections,
        vec!["192.168.1.2:5555", "USB1", "adb-P._adb-tls-connect._tcp"]
    );
    assert_eq!(rows[2].transport, "USB / Wi-Fi");
    assert_eq!(group(&ds, "192.168.1.2:5555")[2].serial, "192.168.1.2:5555");
    assert_eq!(group(&ds[..2], "")[0].serial, "adb-P._adb-tls-connect._tcp");
    assert_eq!(group(&ds[..2], "")[0].transport, "Wi-Fi");
}

#[test]
fn the_order_of_transports_does_not_show() {
    let ds = vec![
        device("192.168.1.2:5555", "Wi-Fi", Some("P")),
        device("b", "USB", None),
        device("USB1", "USB", Some("P")),
        device("a", "USB", None),
    ];
    let rows = group(&ds, "");
    for turn in 1..4 {
        let mut other = ds.clone();
        other.rotate_left(turn);
        assert!(group(&other, "") == rows);
        other.reverse();
        assert!(group(&other, "") == rows);
    }
}

#[test]
fn an_unready_phone_is_a_row_of_its_own() {
    let mut d = device("x", "USB", Some("P"));
    d.state = "offline".into();
    let ds = vec![device("y", "USB", Some("P")), d];
    let rows = group(&ds, "");
    assert_eq!(rows.len(), 2);
    assert_eq!(rows[0].serial, "x");
    assert_eq!(rows[1].serial, "y");
}

#[test]
fn endpoints_need_host_and_port() {
    assert_eq!(endpoint(" 192.168.1.5:37000\n"), Ok("192.168.1.5:37000"));
    assert_eq!(endpoint("[fe80::1]:5555"), Ok("[fe80::1]:5555"));
    assert_eq!(endpoint("phone-1.local:1"), Ok("phone-1.local:1"));
    assert_eq!(
        endpoint("localhost"),
        Err("Use host:port or [IPv6]:port; pairing and connection ports differ")
    );
    let bad = Err("Use a valid host and explicit port; pairing and connection ports differ");
    for value in [
        ":1", "a:0", "a:65536", "a:x", "a:", "-a:1", "a_b:1", "fe80::1:5555", "[fe80::g]:1",
        "[]:1", "a b:1",
    ] {
        assert_eq!(endpoint(value), bad, "{value}");
    }
    assert_eq!(endpoint("a:+7"), Ok("a:+7"));
    assert!(endpoint(&format!("{}:1", "a".repeat(253))).is_ok());
    assert!(endpoint(&format!("{}:1", "a".repeat(254))).is_err());
    let once = endpoint(" a:1 ").unwrap();
    assert_eq!(endpoint(once), Ok(once));
}

#[test]
fn the_server_must_be_local() {
    let adb = Adb::new(String::new(), &plain()).unwrap();
    assert_eq!(adb.path, "adb");
    assert_eq!(adb.socket, "localhost:5037");
    let mut env = plain();
    env.on_path = false;
    env.home = Some("/home/u".into());
    env.server_port = Some("6000".into());
    let adb = Adb::new(String::new(), &env).unwrap();
    assert_eq!(adb.path, "/home/u/Android/Sdk/platform-tools/adb");
    assert_eq!(adb.socket, "localhost:6000");
    assert_eq!(Adb::new("/x/adb".into(), &env).unwrap().path, "/x/adb");
    for (socket, expected) in [
        ("tcp:127.0.0.1:5037", "127.0.0.1:5037"),
        ("tcp:127.9.9.9:1", "127.9.9.9:1"),
        ("tcp:[::1]:5037", "[::1]:5037"),
        ("tcp:5038", "localhost:5038"),
    ] {
        env.server_socket = Some(socket.into());
        assert_eq!(Adb::new(String::new(), &env).unwrap().socket, expected);
    }
    for (socket, error) in [
        ("localfilesystem:/x", "ADB_SERVER_SOCKET must be a local TCP smart socket"),
        ("tcp:host:", "Use a valid host and explicit port; pairing and connection ports differ"),
        (
            "tcp:10.0.0.1:5037",
            "Remote ADB servers are unsupported; use a loopback ADB_SERVER_SOCKET",
        ),
        (
            "tcp:[::2]:5037",
            "Remote ADB servers are unsupported; use a loopback ADB_SERVER_SOCKET",
        ),
    ] {
        env.server_socket = Some(socket.into());
        assert_eq!(Adb::new(String::new(), &env).err(), Some(error));
    }
}

#[test]
fn helpers_are_invoked_on_a_transport() {
    let adb = Adb::new("adb".into(), &plain()).unwrap();
    let call = adb.call(&["devices"], Some(b"x"), 7);
    assert_eq!(call.program, "adb");
    assert_eq!(call.args, vec!["devices"]);
    assert_eq!(call.input, Some(b"x".to_vec()));
    assert_eq!((call.limit, call.seconds), (65536, 7));
    let call = adb.device("12", &["shell", "ls"]).unwrap();
    assert_eq!(call.args, vec!["-t", "12", "shell", "ls"]);
    assert_eq!(call.seconds, 3);
    let no_id = Some("ADB omitted transport IDs; update platform-tools");
    assert_eq!(adb.device("", &[]).err(), no_id);
    assert_eq!(adb.device("1x", &[]).err(), no_id);
    assert_eq!(
        adb.identity("3").unwrap().args,
        vec!["-t", "3", "shell", "getprop", "ro.serialno"]
    );
    assert_eq!(
        adb.competitors("3", false).unwrap().args,
        vec!["-t", "3", "shell", "ps", "-A", "-o", "ARGS"]
    );
    assert_eq!(
        adb.competitors("3", true).err(),
        Some("Paused for scrcpy; close scrcpy/Android Mirror to resume")
    );
    let call = adb.connect(" a:1 ").unwrap();
    assert_eq!(call.args, vec!["connect", "a:1"]);
    assert_eq!(call.seconds, 15);
    assert!(adb.connect("a").is_err());
}

#[test]
fn pairing_secrets_are_checked() {
    let adb = Adb::new("adb".into(), &plain()).unwrap();
    let call = adb.pair("a:1", "123456", false).unwrap();
    assert_eq!(call.args, vec!["pair", "a:1"]);
    assert_eq!(call.input, Some(b"123456\n".to_vec()));
    assert_eq!(call.seconds, 30);
    let bad = Some("Invalid pairing code; generate a new code on the phone");
    assert_eq!(adb.pair("a:1", "12345", false).err(), bad);
    assert_eq!(adb.pair("a:1", "12345x", false).err(), bad);
    assert_eq!(adb.pair("a:1", "123456", true).err(), bad);
    assert!(adb.pair("a:1", &"a".repeat(20), true).is_ok());
    assert!(adb.pair("a:1", &"a".repeat(64), true).is_ok());
    assert_eq!(adb.pair("a:1", &"a".repeat(65), true).err(), bad);
    assert_eq!(adb.pair("a:1", &"-".repeat(20), true).err(), bad);
    assert_eq!(
        adb.pair("a", "123456", false).err(),
        Some("Use host:port or [IPv6]:port; pairing and connection ports differ")
    );
}

#[test]
fn identities_must_tell_phones_apart() {
    assert_eq!(identity_of(b" R58M \r\n"), Ok("R58M".to_string()));
    let none = Err("Phone exposes no stable ro.serialno; cannot safely reconnect");
    assert_eq!(identity_of(b"\n"), none);
    assert_eq!(identity_of(b"UnKnown\n"), none);
    assert_eq!(identity_of("a".repeat(257).as_bytes()), none);
    assert!(identity_of("a".repeat(256).as_bytes()).is_ok());
    assert_eq!(identity_of(b"\xff"), Err("Invalid phone identity"));
}

#[test]
fn answers_are_judged() {
    assert_eq!(connect_result(b"x\nconnected to a:1"), Ok(()));
    assert_eq!(connect_result(b"already connected to a:1\n"), Ok(()));
    assert_eq!(
        connect_result(b"failed; not connected to a"),
        Err("Connection failed; use the main Wireless debugging connection port, not the pairing port")
    );
    assert_eq!(
        pair_result(b"Successfully paired to a:1 [guid=adb-R58M-x.y_z]\n"),
        Ok("adb-R58M-x.y_z".to_string())
    );
    assert_eq!(pair_result(b"Successfully paired [guid=a b]"), Ok(String::new()));
    assert_eq!(pair_result(b"Successfully paired"), Ok(String::new()));
    let failed = Err("Pairing failed; generate a new QR/code and check the pairing port");
    assert_eq!(pair_result(b"Failed: \xff"), failed);
    assert_eq!(paired("no"), failed);
}

#[test]
fn bytes_that_are_no_text_are_replaced() {
    let line = b"\xff com.genymobile.scrcpy.Server 4.1 scid=1\n";
    assert_eq!(
        competitors_result(line, "2"),
        Err("Paused for another Android scrcpy server; close its client to resume")
    );
    assert_eq!(competitors_result(line, "1"), Ok(()));
    assert_eq!(pair_result(b"\xc3Successfully paired [guid=g]"), Ok("g".to_string()));
}

#[test]
fn own_server_is_no_competitor() {
    let raw = "sh\napp_process / com.genymobile.scrcpy.Server 4.1 scid=00ff log\n";
    assert!(!other_server(raw, "00ff"));
    assert!(other_server(raw, "00f"));
    assert!(other_server(raw, ""));
    assert!(!other_server("sh\n", ""));
}

fn process(name: &str, own: bool, cmdline: Option<&[u8]>) -> Process {
    Process { name: name.into(), own, cmdline: cmdline.map(|b| b.to_vec()) }
}

#[test]
fn local_mirrors_are_found() {
    assert!(local_scrcpy(&None));
    assert!(!local_scrcpy(&Some(vec![])));
    for (p, expected) in [
        (process("12", true, Some(b"/usr/bin/scrcpy\0-s\0x")), true),
        (process("12", true, Some(b"scrcpy")), true),
        (process("12", true, Some(b"C:/x/scrcpy.exe\0")), true),
        (process("12", false, Some(b"scrcpy")), false),
        (process("self", true, Some(b"scrcpy")), false),
        (process("12", true, None), false),
        (process("12", true, Some(b"sh\0scrcpy")), false),
        (process("12", true, Some(b"/scrcpy/x")), false),
        (process("12", true, Some(b"")), false),
    ] {
        assert_eq!(local_scrcpy(&Some(vec![process("1", true, None), p])), expected);
    }
}

#[test]
fn tracking_frames_are_read() {
    let ds = track_frame(b"000da device\nxx\nzz").unwrap();
    assert_eq!(ds.len(), 1);
    assert_eq!(ds[0].serial, "a");
    assert!(track_frame(b"0000rest").unwrap().is_empty());
    for (input, error) in [
        (b"00".as_slice(), "ADB tracking disconnected; restarting discovery"),
        (b"00g0", "Invalid ADB tracking frame"),
        (b"\xff000", "Invalid ADB tracking frame"),
        (b"0005abcd", "Truncated ADB tracking frame"),
        (b"0001\xff", "Invalid ADB device list"),
    ] {
        assert_eq!(track_frame(input).err(), Some(error));
    }
    assert_eq!(frame_length(b"ffff"), Ok(65535));
    assert_eq!(frame_length(b"+00F"), Ok(15));
}

#[test]
fn identities_are_kept_while_ready() {
    let mut known = Identities::default();
    let mut ds = vec![device("a", "USB", None), device("b", "USB", None)];
    assert!(!known.known(&ds[0]));
    known.put(&mut ds[0], Some("A".into()));
    known.put(&mut ds[1], None);
    assert_eq!(ds[0].identity.as_deref(), Some("A"));
    assert!(known.known(&ds[0]) && known.known(&ds[1]));
    let mut next = vec![device("a", "USB", None), device("b", "USB", Some("old"))];
    next[1].state = "offline".into();
    known.reconcile(&mut next);
    assert_eq!(next[0].identity.as_deref(), Some("A"));
    assert_eq!(next[1].identity, None);
    assert!(known.known(&next[0]));
    assert!(!known.known(&next[1]));
    known.put(&mut next[0], Some("B".into()));
    known.reconcile(&mut next);
    assert_eq!(next[0].identity.as_deref(), Some("B"));
    next[0].id = "2".into();
    known.reconcile(&mut next);
    assert_eq!(next[0].identity, None);
}
