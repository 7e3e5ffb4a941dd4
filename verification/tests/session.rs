use omaclip::protocol::Message;
use omaclip::session::{Action, Event, Session, Written};
use omaclip::wayland::Snapshot;

const SECOND: u128 = 1_000_000_000;

fn snapshot(revision: u64, data: &[u8]) -> Snapshot {
    Snapshot { revision, data: Some(data.to_vec()), own: false, ready: true }
}

fn begin() -> Session {
    match Session::begin(&snapshot(1, b"base"), &vec![Ok(Message::Ack(9))]) {
        Ok(s) => s,
        Err(_) => panic!(),
    }
}

fn desktop(s: &mut Session, snap: Snapshot) -> Action {
    s.active_at(Event::Desktop(Some(snap)), 0)
}

fn checked(s: &mut Session, current: u64) -> Action {
    s.active_at(Event::Checked { result: Ok(()), current }, 0)
}

fn end(action: Action) -> &'static str {
    match action {
        Action::End(e) => e,
        _ => panic!(),
    }
}

fn send(s: &mut Session, revision: u64, data: &[u8], now: u128) -> Vec<u8> {
    assert!(matches!(desktop(s, snapshot(revision, data)), Action::Check));
    let frame = match checked(s, revision) {
        Action::Write(frame) => frame,
        _ => panic!(),
    };
    assert!(matches!(s.active_at(Event::Written(Written::Done), now), Action::Wait));
    frame
}

#[test]
fn a_copy_is_sent_and_acknowledged() {
    let mut s = begin();
    assert_eq!(s.deadline(), None);
    assert_eq!(s.patience(), None);
    let frame = send(&mut s, 2, b"hi", 7);
    assert_eq!(frame, vec![9, 0, 0, 0, 0, 0, 0, 0, 1, 0, 0, 0, 0, 2, b'h', b'i']);
    assert_eq!(s.deadline(), Some(5 * SECOND + 7));
    assert!(s.patience().is_some());
    let frame = send(&mut s, 3, b"ho", 8);
    assert_eq!(frame[8], 2);
    assert_eq!(s.deadline(), Some(5 * SECOND + 7));
    let ack = Event::Message(Some(Ok(Message::Ack(1))));
    assert!(matches!(s.active_at(ack, 9), Action::Wait));
    assert_eq!(s.deadline(), Some(5 * SECOND + 8));
    let again = Event::Message(Some(Ok(Message::Ack(1))));
    assert_eq!(
        end(s.active_at(again, 9)),
        "Unexpected clipboard acknowledgement; reconnect the server"
    );
    assert_eq!(
        end(s.active_at(Event::Overdue, 9)),
        "Unexpected clipboard acknowledgement; reconnect the server"
    );
}

#[test]
fn the_baseline_is_not_sent() {
    let mut s = begin();
    assert!(matches!(desktop(&mut s, snapshot(2, b"base")), Action::Check));
    assert!(matches!(checked(&mut s, 2), Action::Wait));
}

#[test]
fn an_outdated_copy_is_not_sent() {
    let mut s = begin();
    assert!(matches!(desktop(&mut s, snapshot(2, b"a")), Action::Check));
    assert!(matches!(checked(&mut s, 3), Action::Wait));
    assert!(matches!(desktop(&mut s, snapshot(3, b"a")), Action::Check));
    assert!(matches!(checked(&mut s, 3), Action::Write(_)));
}

#[test]
fn unready_and_own_selections_are_not_sent() {
    let mut s = begin();
    let mut snap = snapshot(2, b"a");
    snap.ready = false;
    assert!(matches!(desktop(&mut s, snap), Action::Wait));
    let mut snap = snapshot(3, b"a");
    snap.own = true;
    assert!(matches!(desktop(&mut s, snap), Action::Wait));
    assert!(matches!(desktop(&mut s, snapshot(4, b"a")), Action::Check));
    assert!(matches!(checked(&mut s, 4), Action::Wait));
    let none = Snapshot { revision: 5, data: None, own: false, ready: true };
    assert!(matches!(desktop(&mut s, none), Action::Wait));
    assert!(matches!(desktop(&mut s, snapshot(6, b"a")), Action::Check));
    assert!(matches!(checked(&mut s, 6), Action::Write(_)));
}

fn hear(s: &mut Session, data: &[u8], now: u128) -> Action {
    s.active_at(Event::Message(Some(Ok(Message::Text(Some(data.to_vec()))))), now)
}

#[test]
fn a_copy_is_taken_from_the_phone() {
    let mut s = begin();
    assert!(matches!(hear(&mut s, b"p", 0), Action::Check));
    match checked(&mut s, 99) {
        Action::Apply { revision, data } => {
            assert_eq!(revision, 1);
            assert_eq!(data, b"p");
        }
        _ => panic!(),
    }
    assert!(matches!(s.active_at(Event::Applied(Ok(true)), 0), Action::Wait));
    assert!(matches!(hear(&mut s, b"p", 0), Action::Wait));
    assert!(matches!(desktop(&mut s, snapshot(2, b"p")), Action::Check));
    assert!(matches!(checked(&mut s, 2), Action::Wait));
}

#[test]
fn a_copy_that_lost_the_race_is_not_held() {
    let mut s = begin();
    hear(&mut s, b"p", 0);
    checked(&mut s, 1);
    assert!(matches!(s.active_at(Event::Applied(Ok(false)), 0), Action::Wait));
    assert!(matches!(hear(&mut s, b"p", 0), Action::Check));
}

#[test]
fn a_sent_copy_is_not_taken_back() {
    let mut s = begin();
    send(&mut s, 2, b"x", 0);
    send(&mut s, 3, b"y", 0);
    assert!(matches!(hear(&mut s, b"x", 3 * SECOND), Action::Wait));
    assert!(matches!(hear(&mut s, b"x", 3 * SECOND + 1), Action::Check));
}

#[test]
fn unacknowledged_copies_are_bounded() {
    let mut s = begin();
    for i in 0..64u64 {
        send(&mut s, i + 2, format!("copy {i}").as_bytes(), 0);
    }
    desktop(&mut s, snapshot(100, b"one more"));
    assert_eq!(
        end(checked(&mut s, 100)),
        "Phone is not acknowledging clipboard updates; reconnect it"
    );
}

#[test]
fn sessions_end_with_a_reason() {
    let e = |event: Event| end(begin().active_at(event, 0));
    assert_eq!(e(Event::Exited), "Android server exited; reconnecting");
    assert_eq!(
        e(Event::Overdue),
        "Phone stopped acknowledging updates; unlock or reconnect it"
    );
    assert_eq!(e(Event::Desktop(None)), "Wayland clipboard closed; restart bridge");
    assert_eq!(e(Event::Message(None)), "Android control channel closed");
    assert_eq!(e(Event::Message(Some(Err("bad")))), "bad");
    let mut s = begin();
    desktop(&mut s, snapshot(2, b"a"));
    let event = Event::Checked { result: Err("busy"), current: 2 };
    assert_eq!(end(s.active_at(event, 0)), "busy");
    for (written, reason) in [
        (Written::TimedOut, "Clipboard write timed out"),
        (Written::Failed, "Android clipboard write failed"),
    ] {
        let mut s = begin();
        desktop(&mut s, snapshot(2, b"a"));
        checked(&mut s, 2);
        assert_eq!(end(s.active_at(Event::Written(written), 0)), reason);
    }
    let mut s = begin();
    hear(&mut s, b"p", 0);
    checked(&mut s, 1);
    assert_eq!(end(s.active_at(Event::Applied(Err("gone")), 0)), "gone");
    assert!(Session::begin(&snapshot(1, b""), &vec![Ok(Message::Ack(1)), Err("lost")]).is_err());
}

#[test]
fn the_clock_of_a_session_runs() {
    let mut s = begin();
    assert!(matches!(s.active(Event::Desktop(Some(snapshot(2, b"a")))), Action::Check));
    let event = Event::Checked { result: Ok(()), current: 2 };
    assert!(matches!(s.active(event), Action::Write(_)));
    assert!(matches!(s.active(Event::Written(Written::Done)), Action::Wait));
    let deadline = s.deadline().unwrap();
    assert!(deadline >= 5 * SECOND && deadline < 60 * SECOND);
    assert!(s.patience().unwrap() <= 5 * SECOND);
    let text = Message::Text(Some(b"a".to_vec()));
    assert!(matches!(s.active(Event::Message(Some(Ok(text)))), Action::Wait));
}
