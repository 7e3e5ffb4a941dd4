use omaclip::adb::{Adb, Device, Environment, Process};
use omaclip::process::Call;
use omaclip::transport::{
    compatible_version, server_path, supported, verify, verify_archive, version_call, Archive,
    CloseStep, OpenReply, OpenRequest, Transport,
};

#[test]
fn accepts_only_supported_scrcpy_version() {
    assert!(compatible_version(
        b"scrcpy 4.1 <https://github.com/Genymobile/scrcpy>\nDependencies:"
    ));
    for output in [
        b"scrcpy 4.10".as_slice(),
        b"scrcpy 4.1-dev",
        b"scrcpy 4.0",
        b"scrcpy 5.0",
        b"",
        b"something 4.1",
    ] {
        assert!(!compatible_version(output));
    }
}

fn archive(content: &[u8]) -> Archive {
    Archive::Found {
        file: true,
        len: content.len() as u64,
        signature: if content.len() < 4 {
            None
        } else {
            Some([content[0], content[1], content[2], content[3]])
        },
    }
}

#[test]
fn rejects_missing_or_invalid_server() {
    assert!(verify_archive(&Archive::Missing).is_err());
    assert!(verify_archive(&archive(b"not a server")).is_err());
    assert!(verify_archive(&archive(b"PK")).is_err());
}

#[test]
fn servers_are_told_apart() {
    assert_eq!(server_path(), "/usr/share/scrcpy/scrcpy-server");
    assert_eq!(verify_archive(&archive(b"PK\x03\x04...")), Ok(()));
    for (a, error) in [
        (Archive::Missing, "System scrcpy server missing; reinstall the scrcpy package"),
        (Archive::Unknown, "Cannot inspect system scrcpy server"),
        (archive(b"PK"), "Cannot read system scrcpy server; reinstall the scrcpy package"),
        (archive(b"zip!"), "Invalid system scrcpy server; reinstall the scrcpy package"),
        (
            Archive::Found { file: false, len: 4, signature: Some(*b"PK\x03\x04") },
            "Invalid system scrcpy server; reinstall the scrcpy package",
        ),
        (
            Archive::Found { file: true, len: 4194305, signature: Some(*b"PK\x03\x04") },
            "Invalid system scrcpy server; reinstall the scrcpy package",
        ),
    ] {
        assert_eq!(verify_archive(&a), Err(error));
    }
    let largest = Archive::Found { file: true, len: 4194304, signature: Some(*b"PK\x03\x04") };
    assert_eq!(verify_archive(&largest), Ok(()));
}

#[test]
fn the_mirror_is_verified_before_its_server() {
    let call = version_call();
    assert_eq!(call.program, "/usr/bin/scrcpy");
    assert_eq!(call.args, vec!["--version"]);
    assert_eq!((call.limit, call.seconds), (8192, 5));
    assert_eq!(verify(&Ok(b"scrcpy 4.1".to_vec()), &archive(b"PK\x03\x04")), Ok(()));
    assert_eq!(
        verify(&Err("x"), &Archive::Missing),
        Err("scrcpy is missing or cannot run; install scrcpy 4.1")
    );
    assert_eq!(
        verify(&Ok(b"scrcpy 4.0".to_vec()), &Archive::Missing),
        Err("This OmaClip release requires scrcpy 4.1; installed version is unsupported")
    );
    assert_eq!(
        verify(&Ok(b"scrcpy 4.1".to_vec()), &Archive::Missing),
        Err("System scrcpy server missing; reinstall the scrcpy package")
    );
    assert!(supported(" scrcpy\t4.1\n"));
}

fn transport(id: &str) -> Transport {
    let env = Environment { on_path: true, home: None, server_socket: None, server_port: None };
    let device = Device {
        serial: "S".into(),
        state: "device".into(),
        model: "m".into(),
        transport: "USB".into(),
        id: id.into(),
        identity: None,
        connections: vec![],
    };
    Transport::new(Adb::new("adb".into(), &env).unwrap(), device, Some([0xff, 0x02, 0x03, 0x0a]))
        .unwrap()
}

fn run(request: OpenRequest) -> Call {
    match request {
        OpenRequest::Run(call) => call,
        _ => panic!(),
    }
}

fn output(bytes: &[u8]) -> OpenReply {
    OpenReply::Output(Ok(bytes.to_vec()))
}

/// Opens the transport up to the first attempt to connect.
fn connecting() -> Transport {
    let mut t = transport("7");
    assert_eq!(run(t.open(OpenReply::Begin, "ID")).program, "/usr/bin/scrcpy");
    assert!(matches!(t.open(output(b"scrcpy 4.1"), "ID"), OpenRequest::ReadArchive));
    let call = run(t.open(OpenReply::Archive(archive(b"PK\x03\x04")), "ID"));
    assert_eq!(call.args, vec!["-t", "7", "shell", "getprop", "ro.serialno"]);
    assert!(matches!(t.open(output(b"ID\n"), "ID"), OpenRequest::ListProcesses));
    let call = run(t.open(OpenReply::Processes(Some(vec![])), "ID"));
    assert_eq!(call.args, vec!["-t", "7", "shell", "ps", "-A", "-o", "ARGS"]);
    let call = run(t.open(output(b"sh\n"), "ID"));
    assert_eq!(
        call.args,
        vec!["-t", "7", "push", server_path(), "/data/local/tmp/omaclip-7f02030a.jar"]
    );
    assert_eq!(call.seconds, 20);
    assert!(matches!(t.open(output(b""), "ID"), OpenRequest::ChoosePort));
    let call = run(t.open(OpenReply::Port(Some(4711)), "ID"));
    assert_eq!(
        call.args,
        vec![
            "-t",
            "7",
            "forward",
            "--no-rebind",
            "tcp:4711",
            "localabstract:scrcpy_7f02030a"
        ]
    );
    match t.open(output(b""), "ID") {
        OpenRequest::Spawn { program, args } => {
            assert_eq!(program, "adb");
            assert_eq!(args.len(), 19);
            assert_eq!(args[3], "CLASSPATH=/data/local/tmp/omaclip-7f02030a.jar");
            assert_eq!(args[7], "4.1");
            assert_eq!(args[8], "scid=7f02030a");
            assert_eq!(args[18], "cleanup=true");
        }
        _ => panic!(),
    }
    assert!(matches!(
        t.open(OpenReply::Spawned(Ok(())), "ID"),
        OpenRequest::Connect(4711)
    ));
    t
}

#[test]
fn a_server_is_opened_and_closed() {
    let mut t = connecting();
    assert_eq!(t.scid, "7f02030a");
    assert!(matches!(t.open(OpenReply::Greeted(Some(1)), "ID"), OpenRequest::Rest));
    assert!(matches!(t.open(OpenReply::Rested, "ID"), OpenRequest::Connect(4711)));
    assert!(matches!(t.open(OpenReply::Greeted(Some(0)), "ID"), OpenRequest::Opened));
    assert!(matches!(t.open(OpenReply::Exited, "ID"), OpenRequest::Opened));
    assert!(matches!(t.close(), CloseStep::Stop));
    match t.close() {
        CloseStep::List { port, call } => {
            assert_eq!(port, 4711);
            assert_eq!(call.args, vec!["forward", "--list"]);
        }
        _ => panic!(),
    }
    let list = b"x tcp:1 localabstract:a\nS tcp:4711 localabstract:scrcpy_7f02030a\n";
    let call = t.listed(4711, &Ok(list.to_vec())).unwrap();
    assert_eq!(call.args, vec!["-t", "7", "forward", "--remove", "tcp:4711"]);
    match t.close() {
        CloseStep::Clean(call) => {
            assert_eq!(call.args[..3], ["-t", "7", "shell"]);
            assert_eq!(
                call.args[3],
                "scid=7f02030a; needle=\"com.genymobile.scrcpy.Server 4.1 scid=$scid\"; ps -A -o PID,ARGS | while read -r pid args; do case \" $args \" in *\" $needle \"*) kill \"$pid\";; esac; done; rm -f /data/local/tmp/omaclip-7f02030a.jar"
            );
        }
        _ => panic!(),
    }
    assert!(matches!(t.close(), CloseStep::Done));
    assert!(matches!(t.close(), CloseStep::Done));
}

#[test]
fn foreign_forwards_are_left_alone() {
    let t = transport("7");
    assert!(t.listed(1, &Err("x")).is_none());
    for list in [
        "S tcp:4711 localabstract:scrcpy_00000000",
        "S tcp:4712 localabstract:scrcpy_7f02030a",
        "S tcp:4711 localabstract:scrcpy_7f02030a extra",
        "",
    ] {
        assert!(t.listed(4711, &Ok(list.as_bytes().to_vec())).is_none());
        assert!(!t.owns(list, 4711));
    }
    assert!(t.owns("S tcp:4711 localabstract:scrcpy_7f02030a", 4711));
}

#[test]
fn attempts_are_bounded() {
    let mut t = connecting();
    for _ in 0..39 {
        assert!(matches!(t.open(OpenReply::Greeted(None), "ID"), OpenRequest::Rest));
        assert!(matches!(t.open(OpenReply::Rested, "ID"), OpenRequest::Connect(_)));
    }
    assert!(matches!(t.open(OpenReply::Greeted(None), "ID"), OpenRequest::Rest));
    let error =
        "Android clipboard server did not start; unlock phone and check scrcpy 4.1 compatibility";
    match t.open(OpenReply::Rested, "ID") {
        OpenRequest::Failed(e) => assert_eq!(e, error),
        _ => panic!(),
    }
    let mut t = connecting();
    match t.open(OpenReply::Exited, "ID") {
        OpenRequest::Failed(e) => assert_eq!(e, error),
        _ => panic!(),
    }
}

fn failure(request: OpenRequest) -> &'static str {
    match request {
        OpenRequest::Failed(e) => e,
        _ => panic!(),
    }
}

#[test]
fn nothing_is_copied_before_the_checks() {
    let mut t = transport("7");
    t.open(OpenReply::Begin, "ID");
    t.open(output(b"scrcpy 4.1"), "ID");
    t.open(OpenReply::Archive(archive(b"PK\x03\x04")), "ID");
    assert_eq!(
        failure(t.open(output(b"OTHER"), "ID")),
        "Selected endpoint identifies a different phone; select the intended phone again"
    );
    assert!(matches!(t.close(), CloseStep::Done));

    let mut t = transport("");
    t.open(OpenReply::Begin, "ID");
    t.open(output(b"scrcpy 4.1"), "ID");
    assert_eq!(
        failure(t.open(OpenReply::Archive(archive(b"PK\x03\x04")), "ID")),
        "ADB omitted transport IDs; update platform-tools"
    );

    let mut t = transport("7");
    t.open(OpenReply::Begin, "ID");
    t.open(output(b"scrcpy 4.1"), "ID");
    t.open(OpenReply::Archive(archive(b"PK\x03\x04")), "ID");
    t.open(output(b"ID"), "ID");
    assert_eq!(
        failure(t.open(OpenReply::Processes(None), "ID")),
        "Paused for scrcpy; close scrcpy/Android Mirror to resume"
    );

    let mut t = transport("7");
    t.open(OpenReply::Begin, "ID");
    t.open(output(b"scrcpy 4.1"), "ID");
    t.open(OpenReply::Archive(archive(b"PK\x03\x04")), "ID");
    t.open(output(b"ID"), "ID");
    t.open(OpenReply::Processes(Some(vec![])), "ID");
    assert_eq!(
        failure(t.open(output(b"com.genymobile.scrcpy.Server scid=1"), "ID")),
        "Paused for another Android scrcpy server; close its client to resume"
    );
    assert!(matches!(t.close(), CloseStep::Done));
}

#[test]
fn a_failed_copy_is_removed() {
    let mut t = transport("7");
    t.open(OpenReply::Begin, "ID");
    t.open(output(b"scrcpy 4.1"), "ID");
    t.open(OpenReply::Archive(archive(b"PK\x03\x04")), "ID");
    t.open(output(b"ID"), "ID");
    t.open(OpenReply::Processes(Some(vec![])), "ID");
    t.open(output(b""), "ID");
    assert_eq!(failure(t.open(OpenReply::Output(Err("Helper failed")), "ID")), "Helper failed");
    assert!(matches!(t.close(), CloseStep::Clean(_)));
    assert!(matches!(t.close(), CloseStep::Done));
}

#[test]
fn replies_that_do_not_fit_are_ignored() {
    let mut t = transport("7");
    assert!(matches!(t.open(OpenReply::Rested, "ID"), OpenRequest::Nothing));
    t.open(OpenReply::Begin, "ID");
    assert_eq!(run(t.open(OpenReply::Port(None), "ID")).args, vec!["--version"]);
}

#[test]
fn mirrors_are_checked_during_a_session() {
    let t = transport("7");
    assert_eq!(
        t.check(&Some(vec![])).unwrap().args,
        vec!["-t", "7", "shell", "ps", "-A", "-o", "ARGS"]
    );
    let mirror = Process { name: "1".into(), own: true, cmdline: Some(b"scrcpy\0".to_vec()) };
    assert_eq!(
        t.check(&Some(vec![mirror])).err(),
        Some("Paused for scrcpy; close scrcpy/Android Mirror to resume")
    );
    assert_eq!(
        transport("x").check(&Some(vec![])).err(),
        Some("ADB omitted transport IDs; update platform-tools")
    );
    assert_eq!(t.check_result(b"com.genymobile.scrcpy.Server scid=7f02030a"), Ok(()));
    assert!(t.check_result(b"com.genymobile.scrcpy.Server scid=1").is_err());
}

#[test]
fn session_ids_are_positive() {
    let env = Environment { on_path: true, home: None, server_socket: None, server_port: None };
    let id = |random: [u8; 4]| {
        let adb = Adb::new("adb".into(), &env).unwrap();
        Transport::new(adb, transport("7").device, Some(random)).unwrap().scid
    };
    assert_eq!(id([0, 0, 0, 0]), "00000001");
    assert_eq!(id([0x80, 0, 0, 0]), "00000001");
    assert_eq!(id([0x80, 0, 0, 2]), "00000002");
    assert_eq!(id([0x80, 1, 0, 0]), "00010000");
    assert_eq!(id([0xff, 0xff, 0xff, 0xff]), "7fffffff");
}

#[test]
fn a_session_needs_randomness() {
    let env = Environment { on_path: true, home: None, server_socket: None, server_port: None };
    let t = transport("7");
    let adb = Adb::new("adb".into(), &env).unwrap();
    assert_eq!(
        Transport::new(adb, t.device.clone(), None).err(),
        Some("System randomness unavailable")
    );
}
