use omaclip::protocol::{
    self, read, valid, Decoder, Message, Progress, MAX_TEXT, VERSION, WIRE_MAX,
};

fn text(data: &[u8]) -> Vec<u8> {
    let mut frame = vec![0];
    frame.extend_from_slice(&(data.len() as u32).to_be_bytes());
    frame.extend_from_slice(data);
    frame
}

#[test]
fn limits() {
    assert_eq!(VERSION, "4.1");
    assert_eq!(MAX_TEXT, 65536);
    assert_eq!(WIRE_MAX, (1 << 18) - 5);
}

#[test]
fn only_plain_text_is_shared() {
    assert!(valid(b""));
    assert!(valid("héllo".as_bytes()));
    assert!(!valid(b"a\0b"));
    assert!(!valid(b"\xff"));
    assert!(valid(&vec![b'a'; 65536]));
    assert!(!valid(&vec![b'a'; 65537]));
}

#[test]
fn frames_are_written() {
    assert_eq!(
        protocol::write(b"hi", 0x0102030405060708).unwrap(),
        vec![9, 1, 2, 3, 4, 5, 6, 7, 8, 0, 0, 0, 0, 2, b'h', b'i']
    );
    let bad = Err("Invalid clipboard text or sequence");
    assert_eq!(protocol::write(b"hi", 0), bad);
    assert_eq!(protocol::write(b"\0", 1), bad);
    assert_ne!(protocol::write(b"a", 1), protocol::write(b"a", 2));
    assert_ne!(protocol::write(b"a", 1), protocol::write(b"b", 1));
}

#[test]
fn messages_are_read() {
    assert_eq!(read(&text(b"hi")), Ok((Message::Text(Some(b"hi".to_vec())), 7)));
    assert_eq!(read(&text(b"")), Ok((Message::Text(Some(vec![])), 5)));
    assert_eq!(read(&text(b"\xff")), Ok((Message::Text(None), 6)));
    assert_eq!(read(&text(&vec![b'a'; 65537])), Ok((Message::Text(None), 65542)));
    assert_eq!(
        read(&text(&vec![b'a'; WIRE_MAX])),
        Ok((Message::Text(None), WIRE_MAX + 5))
    );
    assert_eq!(read(&[1, 0, 0, 0, 0, 0, 0, 1, 2]), Ok((Message::Ack(258), 9)));
    let mut two = text(b"a");
    two.extend_from_slice(&text(b"b"));
    let (first, n) = read(&two).unwrap();
    assert_eq!(first, Message::Text(Some(b"a".to_vec())));
    assert_eq!(read(&two[n..]).unwrap().0, Message::Text(Some(b"b".to_vec())));
}

#[test]
fn broken_streams_are_told() {
    for (input, error) in [
        (vec![], "Android control channel closed; reconnecting"),
        (vec![0, 0, 0], "Truncated clipboard header"),
        (vec![0, 0, 0, 0, 2, b'a'], "Truncated clipboard frame"),
        (vec![0, 0, 1, 0, 1, b'a'], "Truncated clipboard frame"),
        (
            vec![0, 0, 3, 255, 252],
            "Invalid clipboard frame length; check scrcpy compatibility",
        ),
        (vec![1, 0], "Truncated acknowledgement"),
        (vec![2], "Unexpected control message; incompatible server"),
    ] {
        assert_eq!(read(&input), Err(error));
    }
}

#[test]
fn long_texts_are_drained_in_chunks() {
    let mut decoder = Decoder::Drain(5000);
    assert_eq!(decoder.wants(), 4096);
    match decoder.supply(&[b'a'; 4096]) {
        Ok(Progress::More(next)) => decoder = next,
        _ => panic!(),
    }
    assert_eq!(decoder.wants(), 904);
    assert_eq!(decoder.truncated(), "Truncated clipboard frame");
    assert!(matches!(
        decoder.supply(&[b'a'; 904]),
        Ok(Progress::Done(Message::Text(None)))
    ));
}
