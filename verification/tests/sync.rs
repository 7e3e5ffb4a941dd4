use omaclip::sync::Policy;

const SECOND: u128 = 1_000_000_000;

#[test]
fn baseline_is_not_shared() {
    let mut p = Policy::new(Some(b"a"));
    assert!(!p.desktop(Some(b"a")));
    assert!(p.desktop(Some(b"b")));
    assert!(!p.desktop(Some(b"b")));
    assert!(p.desktop(Some(b"a")));
    let mut p = Policy::new(None);
    assert!(!p.desktop(None));
    assert!(p.desktop(Some(b"")));
    assert!(!p.desktop(None));
    assert!(p.desktop(Some(b"")));
}

#[test]
fn invalid_text_is_not_exchanged() {
    let mut p = Policy::new(None);
    assert!(!p.desktop(Some(b"a\0")));
    assert!(!p.phone(b"\xff"));
    assert!(!p.phone_at(b"a\0", 0));
}

#[test]
fn applied_text_is_not_shared_back() {
    let mut p = Policy::new(None);
    assert!(p.phone(b"a"));
    p.applied(b"a");
    assert!(!p.desktop(Some(b"a")));
    assert!(!p.phone(b"a"));
    assert!(p.phone(b"b"));
}

#[test]
fn sent_text_is_not_taken_back_at_once() {
    let mut p = Policy::new(None);
    p.sent_at(b"a", 0);
    assert!(!p.phone_at(b"a", 3 * SECOND));
    assert!(p.phone_at(b"b", 3 * SECOND));
    assert!(p.phone_at(b"a", 3 * SECOND + 1));
    let mut p = Policy::new(None);
    p.sent(b"a");
    assert!(!p.phone(b"a"));
}

#[test]
fn an_echo_is_refused_each_time() {
    let mut p = Policy::new(None);
    p.sent_at(b"a", 0);
    p.sent_at(b"b", SECOND);
    p.sent_at(b"a", 2 * SECOND);
    for now in [2 * SECOND, 3 * SECOND, 4 * SECOND, 5 * SECOND] {
        assert!(!p.phone_at(b"a", now));
        assert!(!p.phone_at(b"a", now));
        assert_eq!(p.phone_at(b"b", now), now > 4 * SECOND);
    }
    assert!(p.phone_at(b"a", 5 * SECOND + 1));
    assert!(p.phone_at(b"a", 5 * SECOND + 1));
    p.applied(b"a");
    assert!(!p.phone_at(b"a", 9 * SECOND));
}

#[test]
fn only_the_last_texts_are_remembered() {
    let mut p = Policy::new(None);
    for i in 0..65u8 {
        p.sent_at(&[b'a', i + 1], 0);
    }
    assert!(p.phone_at(&[b'a', 1], 0));
    assert!(!p.phone_at(&[b'a', 2], 0));
    assert!(!p.phone_at(&[b'a', 65], 0));
}

#[test]
fn different_texts_have_different_digests() {
    let mut p = Policy::new(Some(b"same length 1"));
    assert!(p.desktop(Some(b"same length 2")));
    assert!(p.now() < 60 * SECOND);
}
