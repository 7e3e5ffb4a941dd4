use omaclip::address::{ipv4, ipv6, loopback};
use omaclip::process::{run, Outcome};
use omaclip::random_hex;
use omaclip::text;

#[test]
fn helpers_end_in_a_result() {
    assert_eq!(run(Outcome::Ended(b"out".to_vec(), true), 3), Ok(b"out".to_vec()));
    for (outcome, error) in [
        (
            Outcome::NotStarted,
            "Required helper unavailable; check ADB/Avahi/qrencode dependencies",
        ),
        (Outcome::TimedOut, "Command timed out; unlock or reconnect the phone"),
        (Outcome::InputFailed, "Helper input failed"),
        (Outcome::OutputFailed, "Helper output failed"),
        (Outcome::NotReaped(b"abc".to_vec()), "Cannot reap helper"),
        (Outcome::NotReaped(b"abcd".to_vec()), "Helper output exceeded its size limit"),
        (Outcome::Ended(b"abcd".to_vec(), true), "Helper output exceeded its size limit"),
        (
            Outcome::Ended(b"abc".to_vec(), false),
            "Helper failed; check phone authorization and dependencies",
        ),
    ] {
        assert_eq!(run(outcome, 3), Err(error));
    }
}

#[test]
fn tokens_are_hexadecimal() {
    assert_eq!(random_hex(Some(&[0, 15, 16, 255])), Ok("000f10ff".to_string()));
    assert_eq!(random_hex(None), Err("System randomness unavailable"));
}

#[test]
fn addresses_are_read() {
    assert_eq!(ipv4("127.0.0.1"), Some(vec![127, 0, 0, 1]));
    assert_eq!(ipv4("0.0.0.0"), Some(vec![0, 0, 0, 0]));
    for t in ["256.1.1.1", "01.2.3.4", "1.2.3", "1.2.3.4.5", "", "a", "1.2.3.4 ", "::1"] {
        assert_eq!(ipv4(t), None, "{t}");
    }
    for (t, groups) in [
        ("::", [0, 0, 0, 0, 0, 0, 0, 0]),
        ("::1", [0, 0, 0, 0, 0, 0, 0, 1]),
        ("1::", [1, 0, 0, 0, 0, 0, 0, 0]),
        ("FE80::1", [0xfe80, 0, 0, 0, 0, 0, 0, 1]),
        ("1:2:3:4:5:6:7:8", [1, 2, 3, 4, 5, 6, 7, 8]),
        ("::ffff:1.2.3.4", [0, 0, 0, 0, 0, 0xffff, 0x0102, 0x0304]),
        ("1:2:3:4:5:6:1.2.3.4", [1, 2, 3, 4, 5, 6, 0x0102, 0x0304]),
        ("1:2:3:4:5:6:7::", [1, 2, 3, 4, 5, 6, 7, 0]),
        ("::2:3:4:5:6:7:8", [0, 2, 3, 4, 5, 6, 7, 8]),
    ] {
        assert_eq!(ipv6(t), Some(groups.to_vec()), "{t}");
    }
    for t in [
        "", "1:2:3:4:5:6:7", "1:2:3:4:5:6:7:8:9", "1::2::3", ":1", "1:", "12345::", "g::",
        "::1%eth0", "::1.2.3", "1:2:3:4::5:6:7:8", ":::", "1.2.3.4",
    ] {
        assert_eq!(ipv6(t), None, "{t}");
    }
    for t in ["127.0.0.1", "127.255.0.9", "::1"] {
        assert!(loopback(t));
    }
    for t in ["128.0.0.1", "::2", "::ffff:127.0.0.1", "localhost", ""] {
        assert!(!loopback(t));
    }
}

#[test]
fn white_space_is_that_of_the_standard_library() {
    for c in '\0'..=char::MAX {
        assert_eq!(text::space(c), c.is_whitespace());
        assert_eq!(text::alnum(c), c.is_ascii_alphanumeric());
        assert_eq!(text::digit(c), c.is_ascii_digit());
    }
}

#[test]
fn texts_are_handled_as_the_standard_library_does() {
    let samples = ["", " ", "a", " a b\t\u{a0}c ", "é::x::", "::", ":a:b", "\u{2003}x", "Zz", "aab"];
    for a in samples {
        assert_eq!(text::trim(a), a.trim());
        assert_eq!(text::words(a), a.split_whitespace().collect::<Vec<_>>());
        assert_eq!(text::split(a, ':'), a.split(':').collect::<Vec<_>>());
        assert_eq!(text::rsplit_once(a, ':'), a.rsplit_once(':'));
        assert_eq!(text::bytes_in(a), a.len());
        for b in samples {
            assert_eq!(text::less(a, b), a < b);
            assert_eq!(text::same(a, b), a == b);
            assert_eq!(text::strip_prefix(a, b), a.strip_prefix(b));
            assert_eq!(text::equal_ignoring_case(a, b), a.eq_ignore_ascii_case(b));
            if !b.is_empty() {
                assert_eq!(text::contains(a, b), a.contains(b));
                assert_eq!(text::before(a, b), a.split(b).next().unwrap());
                assert_eq!(text::after(a, b), a.split_once(b).map(|(_, t)| t));
            }
        }
    }
    for n in [0, 7, 10, 65535, u64::MAX] {
        assert_eq!(text::decimal(n), n.to_string());
    }
    for t in ["0", "+7", "", "+", "-1", "65535", "65536", "00012", "1 ", "99999999999"] {
        assert_eq!(text::number(t, 10, 65535), t.parse::<u16>().ok().map(|v| v as u32), "{t}");
    }
    let mut list = Vec::new();
    for t in ["b", "a", "c", "a"] {
        text::add_sorted(&mut list, t);
    }
    assert_eq!(list, vec!["a", "a", "b", "c"]);
    assert_eq!(text::join(&list, "-"), "a-a-b-c");
    assert_eq!(text::replace_char("a_b_", '_', ' '), "a b ");
}
