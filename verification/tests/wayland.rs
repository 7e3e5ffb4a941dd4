use omaclip::wayland::{
    outgoing, sending, transfer_data, Bind, Clipboard, Delivery, Life, Opening, Request, Response,
    Sending, Snapshot, State,
};

const PLAIN: [&str; 4] =
    ["text/plain;charset=utf-8", "text/plain;charset=UTF-8", "text/plain", "UTF8_STRING"];
const SECRET: &str = "x-kde-passwordManagerHint";

fn state() -> State {
    let mut s = State::new("00ff", false);
    assert_eq!(s.global("zwlr_data_control_manager_v1", 1), Some(Bind::Manager(1)));
    assert_eq!(s.global("zwlr_data_control_manager_v1", 2), None);
    assert_eq!(s.global("wl_seat", 9), Some(Bind::Seat(2)));
    assert_eq!(s.global("wl_output", 4), None);
    assert!(s.globals_done());
    assert!(!s.accepts_requests());
    let p = s.initialize();
    assert!(!p.answer);
    assert!(s.accepts_requests());
    s
}

fn offer(s: &mut State, types: &[&str]) -> u64 {
    let name = s.offered();
    for t in types {
        s.typed(name, t);
    }
    name
}

fn monitor(s: &mut State) {
    match s.request(Request::Baseline) {
        Response::Waiting(_) => {}
        _ => panic!(),
    }
}

#[test]
fn a_selection_is_read_in_its_best_type() {
    let mut s = state();
    monitor(&mut s);
    let o = offer(&mut s, &["image/png", PLAIN[3], PLAIN[2], PLAIN[1]]);
    let r = s.selection(Some(o));
    assert_eq!(r.destroy, None);
    assert!(r.publish.is_none());
    let t = r.transfer.unwrap();
    assert_eq!(t.offer, o);
    assert_eq!(t.mime, PLAIN[1]);
    let p = s.opening(Opening::Opened).unwrap();
    assert!(!p.snapshot.ready && !p.answer);
    assert!(s.transferred(t.revision + 1, Some(b"late".to_vec())).is_none());
    let p = s.transferred(t.revision, Some(b"hi".to_vec())).unwrap();
    assert!(p.snapshot.ready && p.answer && !p.snapshot.own);
    assert_eq!(p.snapshot.bytes(), Some(b"hi".as_slice()));
    let next = offer(&mut s, &[PLAIN[0]]);
    let r = s.selection(Some(next));
    assert_eq!(r.destroy, Some(o));
    assert!(r.abort);
    assert_eq!(r.transfer.unwrap().mime, PLAIN[0]);
}

#[test]
fn secrets_and_other_content_are_not_read() {
    let mut s = state();
    monitor(&mut s);
    for types in [vec![PLAIN[0], SECRET], vec!["image/png"], vec![]] {
        let o = offer(&mut s, &types);
        let r = s.selection(Some(o));
        assert!(r.transfer.is_none());
        let p = r.publish.unwrap();
        assert!(p.snapshot.ready && p.snapshot.bytes().is_none());
    }
    let r = s.selection(None);
    assert!(r.publish.unwrap().snapshot.bytes().is_none());
}

#[test]
fn a_suspended_clipboard_reads_nothing() {
    let mut s = state();
    let o = offer(&mut s, &[PLAIN[0]]);
    assert!(s.selection(Some(o)).transfer.is_none());
    match s.request(Request::Baseline) {
        Response::Waiting(r) => {
            assert_eq!(r.destroy, None);
            assert_eq!(r.transfer.unwrap().mime, PLAIN[0]);
        }
        _ => panic!(),
    }
    match s.request(Request::Suspend) {
        Response::Suspended(r) => {
            assert!(r.transfer.is_none());
            assert!(r.publish.is_some());
        }
        _ => panic!(),
    }
}

#[test]
fn texts_from_the_phone_are_selected_and_recognised() {
    let mut s = state();
    monitor(&mut s);
    let p = s.selection(None).publish.unwrap();
    let revision = p.snapshot.revision;
    let a = match s.request(Request::Write { revision, data: b"p".to_vec(), closed: false }) {
        Response::Accepted(a) => a,
        _ => panic!(),
    };
    assert_eq!(a.destroy, None);
    assert_eq!(
        a.types,
        vec![PLAIN[0], PLAIN[1], PLAIN[2], PLAIN[3], SECRET, "application/x-omaclip-00ff"]
    );
    let types: Vec<&str> = a.types.iter().map(|t| t.as_str()).collect();
    let o = offer(&mut s, &types);
    let r = s.selection(Some(o));
    assert!(r.transfer.is_none());
    let own = r.publish.unwrap().snapshot;
    assert!(own.own && own.ready);
    assert_eq!(own.bytes(), Some(b"p".as_slice()));
    let late = Request::Write { revision, data: b"q".to_vec(), closed: false };
    assert!(matches!(s.request(late), Response::Refused));
    let closed = Request::Write { revision: own.revision, data: b"q".to_vec(), closed: true };
    assert!(matches!(s.request(closed), Response::Refused));
    let again = Request::Write { revision: own.revision, data: b"q".to_vec(), closed: false };
    match s.request(again) {
        Response::Accepted(b) => {
            assert_eq!(b.destroy, Some(a.source));
            assert_ne!(b.source, a.source);
            s.cancelled(a.source);
            s.cancelled(b.source);
        }
        _ => panic!(),
    }
    let r = s.selection(Some(o));
    assert!(r.publish.unwrap().snapshot.bytes().is_none());
}

#[test]
fn an_unread_selection_refuses_texts() {
    let mut s = state();
    monitor(&mut s);
    let o = offer(&mut s, &[PLAIN[0]]);
    let t = s.selection(Some(o)).transfer.unwrap();
    s.opening(Opening::Opened);
    let request = Request::Write { revision: t.revision, data: vec![], closed: false };
    assert!(matches!(s.request(request), Response::Refused));
}

#[test]
fn few_types_are_kept() {
    let mut s = state();
    monitor(&mut s);
    let o = s.offered();
    for i in 0..1000 {
        s.typed(o, &format!("x/{i}"));
        s.typed(o, PLAIN[0]);
    }
    s.primary(o);
    assert!(s.selection(Some(o)).transfer.is_none());
}

#[test]
fn failures_end_the_clipboard() {
    let mut s = state();
    assert!(matches!(s.life(), Life::Goes));
    s.finished();
    match s.life() {
        Life::Failed(e) => assert_eq!(e, "Wayland clipboard access ended; restart the bridge"),
        _ => panic!(),
    }
    for (opening, error, published) in [
        (Opening::NotPaired, "Cannot open clipboard transfer", true),
        (Opening::NotReady, "Cannot open clipboard transfer", false),
        (Opening::NotRegistered, "Cannot register clipboard transfer", false),
    ] {
        let mut s = state();
        assert_eq!(s.opening(opening).is_some(), published);
        assert!(matches!(s.life(), Life::Failed(e) if e == error));
    }
    let mut s = State::new("", false);
    assert!(!s.globals_done());
    assert!(matches!(
        s.life(),
        Life::Failed(
            "Compositor lacks wlr-data-control or a seat; use supported Hyprland and restart the bridge"
        )
    ));
}

#[test]
fn a_probe_only_lists() {
    let mut s = State::new("", true);
    assert_eq!(s.global("wl_seat", 7), None);
    assert!(!s.globals_done());
    match s.life() {
        Life::Told(globals) => assert_eq!(globals, vec!["wl_seat v7"]),
        _ => panic!(),
    }
}

#[test]
fn texts_are_handed_out_by_type() {
    assert_eq!(outgoing(b"hi", PLAIN[2], 0), Some(b"hi".to_vec()));
    assert_eq!(outgoing(b"hi", SECRET, 15), Some(b"secret".to_vec()));
    assert_eq!(outgoing(b"hi", "image/png", 0), Some(vec![]));
    assert_eq!(outgoing(b"hi", PLAIN[2], 16), None);
    assert_eq!(transfer_data(Some(b"hi".to_vec())), Some(b"hi".to_vec()));
    assert_eq!(transfer_data(Some(b"\0".to_vec())), None);
    assert_eq!(transfer_data(None), None);
}

#[test]
fn sending_goes_on_until_all_is_taken() {
    assert_eq!(sending(5, 0, Some(2)), Sending::More(2));
    assert_eq!(sending(5, 2, None), Sending::More(2));
    assert_eq!(sending(5, 2, Some(3)), Sending::Done);
    assert_eq!(sending(5, 2, Some(0)), Sending::Stalled);
    assert_eq!(sending(0, 0, None), Sending::Done);
}

#[test]
fn questions_to_the_clipboard_are_answered() {
    let snap = Snapshot { revision: 3, data: None, own: false, ready: true };
    assert_eq!(Clipboard::baseline(Delivery::Answered(Ok(snap))).unwrap().revision, 3);
    assert_eq!(Clipboard::baseline(Delivery::NotSent).err(), Some("Wayland clipboard closed"));
    assert_eq!(Clipboard::baseline(Delivery::TimedOut).err(), Some("Wayland baseline timed out"));
    assert_eq!(Clipboard::baseline(Delivery::Dropped).err(), Some("Wayland clipboard closed"));
    assert_eq!(Clipboard::written(Delivery::Answered(Ok(true))), Ok(true));
    assert_eq!(
        Clipboard::written(Delivery::TimedOut),
        Err("Wayland clipboard write timed out")
    );
    assert_eq!(Clipboard::written(Delivery::Dropped), Err("Wayland clipboard closed"));
    assert_eq!(Clipboard::written(Delivery::NotSent), Err("Wayland clipboard closed"));
    assert_eq!(Clipboard::write(1, b"\0").err(), Some("Invalid clipboard text"));
    match Clipboard::write(7, b"a") {
        Ok(Request::Write { revision: 7, data, closed: false }) => assert_eq!(data, b"a"),
        _ => panic!(),
    }
    let empty = Snapshot::default();
    assert!(!empty.ready && !empty.own && empty.revision == 0 && empty.clone().data.is_none());
}
