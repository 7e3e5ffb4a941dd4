//! The control channel to the phone: what may be shared, and how it is framed.
use crate::text;
use vstd::prelude::*;
use vstd::slice::{slice_subrange, slice_to_vec};
use vstd::utf8::*;

verus! {

/// The version of the mirror that the channel speaks to.
pub const VERSION: &'static str = "4.1";

/// The longest text that is shared, in bytes.
pub const MAX_TEXT: usize = 65536;

/// The longest text that a frame may announce, in bytes.
pub const WIRE_MAX: usize = 262139;

/// How much of a rejected text is read at a time.
pub const CHUNK: usize = 4096;

// ---------------------------------------------------------------------------
// Shareable text
// ---------------------------------------------------------------------------
/// Whether `data` may be shared: short enough, without a zero byte, valid UTF-8.
pub open spec fn is_valid(data: Seq<u8>) -> bool {
    data.len() <= MAX_TEXT && !data.contains(0u8) && valid_utf8(data)
}

fn has_zero(data: &[u8]) -> (r: bool)
    ensures
        r == data@.contains(0u8),
{
    let mut i: usize = 0;
    while i < data.len()
        invariant
            i <= data@.len(),
            forall|j: int| 0 <= j < i ==> data@[j] != 0,
        decreases data@.len() - i,
    {
        if data[i] == 0 {
            assert(data@[i as int] == 0);
            return true;
        }
        i += 1;
    }
    false
}

/// Whether `data` may be shared.
pub fn valid(data: &[u8]) -> (r: bool)
    ensures
        r == is_valid(data@),
{
    data.len() <= MAX_TEXT && !has_zero(data) && text::utf8(data).is_some()
}

// ---------------------------------------------------------------------------
// Numbers
// ---------------------------------------------------------------------------
/// The number of values that `width` bytes take.
pub open spec fn values(width: nat) -> nat
    decreases width,
{
    if width == 0 {
        1
    } else {
        256 * values((width - 1) as nat)
    }
}

/// The number that bytes give, the most significant first.
pub open spec fn be_value(s: Seq<u8>) -> nat
    decreases s.len(),
{
    if s.len() == 0 {
        0
    } else {
        256 * be_value(s.drop_last()) + s.last() as nat
    }
}

/// The bytes that give a number, the most significant first.
pub open spec fn be_bytes(n: nat, width: nat) -> Seq<u8>
    decreases width,
{
    if width == 0 {
        Seq::empty()
    } else {
        be_bytes(n / 256, (width - 1) as nat).push((n % 256) as u8)
    }
}

/// Bytes give a number that fits them.
pub proof fn lemma_be_value(s: Seq<u8>)
    ensures
        be_value(s) < values(s.len()),
    decreases s.len(),
{
    if s.len() > 0 {
        lemma_be_value(s.drop_last());
    }
}

/// A number is given back by its bytes.
pub proof fn law_numbers_round_trip(n: nat, width: nat)
    requires
        n < values(width),
    ensures
        be_bytes(n, width).len() == width,
        be_value(be_bytes(n, width)) == n,
    decreases width,
{
    if width > 0 {
        law_numbers_round_trip(n / 256, (width - 1) as nat);
        assert(be_bytes(n, width).drop_last() == be_bytes(n / 256, (width - 1) as nat));
    }
}

proof fn lemma_be_bytes_len(n: nat, width: nat)
    ensures
        be_bytes(n, width).len() == width,
    decreases width,
{
    if width > 0 {
        lemma_be_bytes_len(n / 256, (width - 1) as nat);
    }
}

proof fn lemma_values()
    ensures
        values(4) == 0x1_0000_0000,
        values(8) == 0x1_0000_0000_0000_0000,
{
    reveal_with_fuel(values, 9);
}

proof fn lemma_values_grow(a: nat, b: nat)
    requires
        a <= b,
    ensures
        values(a) <= values(b),
    decreases b,
{
    if a < b {
        lemma_values_grow(a, (b - 1) as nat);
    }
}

fn number_in(bytes: &[u8]) -> (r: u64)
    requires
        bytes@.len() <= 8,
    ensures
        r == be_value(bytes@),
{
    let mut n: u64 = 0;
    let mut i: usize = 0;
    while i < bytes.len()
        invariant
            i <= bytes@.len() <= 8,
            n == be_value(bytes@.take(i as int)),
        decreases bytes@.len() - i,
    {
        proof {
            let part = bytes@.take(i + 1);
            assert(part.drop_last() == bytes@.take(i as int));
            lemma_be_value(part);
            lemma_values_grow((i + 1) as nat, 8);
            lemma_values();
        }
        n = 256 * n + bytes[i] as u64;
        i += 1;
    }
    assert(bytes@.take(i as int) == bytes@);
    n
}

fn put_number(out: &mut Vec<u8>, n: u64, width: usize)
    ensures
        final(out)@ == old(out)@ + be_bytes(n as nat, width as nat),
    decreases width,
{
    if width > 0 {
        put_number(out, n / 256, width - 1);
        out.push((n % 256) as u8);
        assert(out@ =~= old(out)@ + be_bytes(n as nat, width as nat));
    }
}

// ---------------------------------------------------------------------------
// Reading
// ---------------------------------------------------------------------------
/// What the phone says.
#[derive(Debug, PartialEq)]
pub enum Message {
    /// A text was copied. A text that may not be shared is left out.
    Text(Option<Vec<u8>>),
    /// The text with this number arrived.
    Ack(u64),
}

/// What a [`Message`] holds.
pub enum MessageView {
    Text(Option<Seq<u8>>),
    Ack(u64),
}

impl View for Message {
    type V = MessageView;

    open spec fn view(&self) -> MessageView {
        match self {
            Message::Text(Some(data)) => MessageView::Text(Some(data@)),
            Message::Text(None) => MessageView::Text(None),
            Message::Ack(seq) => MessageView::Ack(*seq),
        }
    }
}

/// The message of a text frame.
pub open spec fn text_of(data: Seq<u8>) -> MessageView {
    MessageView::Text(
        if is_valid(data) {
            Some(data)
        } else {
            None
        },
    )
}

/// The text after the kind of its frame.
pub open spec fn text_in(s: Seq<u8>) -> Result<(MessageView, nat), Seq<char>> {
    if s.len() < 4 {
        Err("Truncated clipboard header"@)
    } else {
        let n = be_value(s.take(4));
        if n > WIRE_MAX {
            Err("Invalid clipboard frame length; check scrcpy compatibility"@)
        } else if s.len() < 4 + n {
            Err("Truncated clipboard frame"@)
        } else {
            Ok((text_of(s.subrange(4, 4 + n as int)), 4 + n))
        }
    }
}

/// The acknowledged number after the kind of its frame.
pub open spec fn ack_in(s: Seq<u8>) -> Result<(MessageView, nat), Seq<char>> {
    if s.len() < 8 {
        Err("Truncated acknowledgement"@)
    } else {
        Ok((MessageView::Ack(be_value(s.take(8)) as u64), 8))
    }
}

/// A message that ends `n` bytes later.
pub open spec fn shifted(
    r: Result<(MessageView, nat), Seq<char>>,
    n: nat,
) -> Result<(MessageView, nat), Seq<char>> {
    match r {
        Ok((m, k)) => Ok((m, n + k)),
        Err(e) => Err(e),
    }
}

/// The first message of a stream, and its length; or why there is none, when
/// nothing follows `s`.
pub open spec fn message_in(s: Seq<u8>) -> Result<(MessageView, nat), Seq<char>> {
    if s.len() == 0 {
        Err("Android control channel closed; reconnecting"@)
    } else if s[0] == 0 {
        shifted(text_in(s.skip(1)), 1)
    } else if s[0] == 1 {
        shifted(ack_in(s.skip(1)), 1)
    } else {
        Err("Unexpected control message; incompatible server"@)
    }
}

/// How far a message has been read.
#[derive(Clone, Copy)]
pub enum Decoder {
    /// Its kind comes next.
    Kind,
    /// The length of a text comes next.
    Length,
    /// A text of this length comes next.
    Body(usize),
    /// A text that is too long comes next, with this much left of it.
    Drain(usize),
    /// The number of an acknowledged text comes next.
    Ack,
}

/// What reading a part leads to.
pub enum Progress {
    /// More is to be read.
    More(Decoder),
    /// The message is complete.
    Done(Message),
}

impl Decoder {
    /// How many bytes are read next.
    pub open spec fn next_len(self) -> nat {
        match self {
            Decoder::Kind => 1,
            Decoder::Length => 4,
            Decoder::Body(n) => n as nat,
            Decoder::Drain(n) => if n < CHUNK {
                n as nat
            } else {
                CHUNK as nat
            },
            Decoder::Ack => 8,
        }
    }

    /// No text is read that is too long, and none is announced that may not be.
    pub open spec fn is_bounded(self) -> bool {
        match self {
            Decoder::Body(n) => n <= MAX_TEXT,
            Decoder::Drain(n) => n <= WIRE_MAX,
            _ => true,
        }
    }

    /// What it means that fewer bytes come.
    pub open spec fn truncation(self) -> Seq<char> {
        match self {
            Decoder::Kind => "Android control channel closed; reconnecting"@,
            Decoder::Length => "Truncated clipboard header"@,
            Decoder::Body(_) => "Truncated clipboard frame"@,
            Decoder::Drain(_) => "Truncated clipboard frame"@,
            Decoder::Ack => "Truncated acknowledgement"@,
        }
    }

    /// The message that the rest `s` of the stream completes, and how long its rest
    /// is; or why there is none, when nothing follows `s`.
    pub open spec fn rest(self, s: Seq<u8>) -> Result<(MessageView, nat), Seq<char>> {
        match self {
            Decoder::Kind => message_in(s),
            Decoder::Length => text_in(s),
            Decoder::Body(n) => if s.len() < n {
                Err(self.truncation())
            } else {
                Ok((text_of(s.take(n as int)), n as nat))
            },
            Decoder::Drain(n) => if s.len() < n {
                Err(self.truncation())
            } else {
                Ok((MessageView::Text(None), n as nat))
            },
            Decoder::Ack => ack_in(s),
        }
    }

    /// How many bytes are to be read next.
    pub fn wants(&self) -> (r: usize)
        ensures
            r == self.next_len(),
    {
        match self {
            Decoder::Kind => 1,
            Decoder::Length => 4,
            Decoder::Body(n) => *n,
            Decoder::Drain(n) => if *n < CHUNK {
                *n
            } else {
                CHUNK
            },
            Decoder::Ack => 8,
        }
    }

    /// What it means that fewer bytes came.
    pub fn truncated(&self) -> (r: &'static str)
        ensures
            r@ == self.truncation(),
    {
        match self {
            Decoder::Kind => "Android control channel closed; reconnecting",
            Decoder::Length => "Truncated clipboard header",
            Decoder::Body(_) => "Truncated clipboard frame",
            Decoder::Drain(_) => "Truncated clipboard frame",
            Decoder::Ack => "Truncated acknowledgement",
        }
    }

    /// Takes the bytes that were read.
    pub fn supply(&self, part: &[u8]) -> (r: Result<Progress, &'static str>)
        requires
            part@.len() == self.next_len(),
        ensures
            forall|after: Seq<u8>|
                #![trigger part@ + after]
                match r {
                    Ok(Progress::More(next)) => self.rest(part@ + after) == shifted(
                        next.rest(after),
                        part@.len(),
                    ),
                    Ok(Progress::Done(m)) => self.rest(part@ + after) == Ok::<
                        (MessageView, nat),
                        Seq<char>,
                    >((m@, part@.len())),
                    Err(e) => self.rest(part@ + after) == Err::<(MessageView, nat), Seq<char>>(e@),
                },
            r matches Ok(Progress::More(next)) ==> next.measure() < self.measure() && (
            self.is_bounded() ==> next.is_bounded()),
    {
        proof {
            assert forall|after: Seq<u8>| #![trigger part@ + after] (part@ + after).take(
                part@.len() as int,
            ) == part@ && (part@ + after).skip(part@.len() as int) == after && forall|n: int|
                part@.len() <= n <= part@.len() + after.len() ==> #[trigger] (part@
                    + after).subrange(part@.len() as int, n) == after.take(n - part@.len()) by {
                assert((part@ + after).take(part@.len() as int) =~= part@);
                assert((part@ + after).skip(part@.len() as int) =~= after);
                assert forall|n: int| part@.len() <= n <= part@.len() + after.len() implies
                    #[trigger] (part@ + after).subrange(part@.len() as int, n) == after.take(
                    n - part@.len(),
                ) by {
                    assert((part@ + after).subrange(part@.len() as int, n) =~= after.take(
                        n - part@.len(),
                    ));
                }
            }
        }
        match self {
            Decoder::Kind => {
                assert(forall|after: Seq<u8>| #[trigger] (part@ + after).skip(1) == after);
                if part[0] == 0 {
                    Ok(Progress::More(Decoder::Length))
                } else if part[0] == 1 {
                    Ok(Progress::More(Decoder::Ack))
                } else {
                    Err("Unexpected control message; incompatible server")
                }
            },
            Decoder::Length => {
                proof {
                    lemma_be_value(part@);
                    lemma_values();
                }
                let n = number_in(part);
                if n > WIRE_MAX as u64 {
                    Err("Invalid clipboard frame length; check scrcpy compatibility")
                } else if n > MAX_TEXT as u64 {
                    Ok(Progress::More(Decoder::Drain(n as usize)))
                } else {
                    Ok(Progress::More(Decoder::Body(n as usize)))
                }
            },
            Decoder::Body(_) => if valid(part) {
                Ok(Progress::Done(Message::Text(Some(slice_to_vec(part)))))
            } else {
                Ok(Progress::Done(Message::Text(None)))
            },
            Decoder::Drain(n) => {
                let left: usize = *n - part.len();
                if left == 0 {
                    Ok(Progress::Done(Message::Text(None)))
                } else {
                    Ok(Progress::More(Decoder::Drain(left)))
                }
            },
            Decoder::Ack => Ok(Progress::Done(Message::Ack(number_in(part)))),
        }
    }

    /// How much reading is left at most.
    pub open spec fn measure(self) -> int {
        match self {
            Decoder::Kind => WIRE_MAX + 2,
            Decoder::Length => WIRE_MAX + 1,
            Decoder::Drain(n) => n as int,
            Decoder::Body(_) => 0,
            Decoder::Ack => 0,
        }
    }
}

/// Reads the first message of a stream that ends with `input`. The number tells
/// where the next one starts.
pub fn read(input: &[u8]) -> (r: Result<(Message, usize), &'static str>)
    ensures
        match r {
            Ok((m, n)) => message_in(input@) == Ok::<(MessageView, nat), Seq<char>>(
                (m@, n as nat),
            ),
            Err(e) => message_in(input@) == Err::<(MessageView, nat), Seq<char>>(e@),
        },
{
    let mut at: usize = 0;
    let mut decoder = Decoder::Kind;
    assert(input@.skip(0) == input@);
    loop
        invariant
            at <= input@.len(),
            message_in(input@) == shifted(decoder.rest(input@.skip(at as int)), at as nat),
        decreases decoder.measure(),
    {
        let n: usize = decoder.wants();
        if input.len() - at < n {
            assert(decoder.rest(input@.skip(at as int)) == Err::<(MessageView, nat), Seq<char>>(
                decoder.truncation(),
            ));
            return Err(decoder.truncated());
        }
        let part = slice_subrange(input, at, at + n);
        assert(part@ + input@.skip(at + n) == input@.skip(at as int));
        match decoder.supply(part) {
            Err(e) => {
                return Err(e);
            },
            Ok(Progress::Done(m)) => {
                return Ok((m, at + n));
            },
            Ok(Progress::More(next)) => {
                decoder = next;
                at += n;
            },
        }
    }
}

// ---------------------------------------------------------------------------
// Writing
// ---------------------------------------------------------------------------
/// The frame that shares `data` under the number `seq`.
pub open spec fn frame_of(data: Seq<u8>, seq: u64) -> Seq<u8> {
    seq![9u8] + be_bytes(seq as nat, 8) + seq![0u8] + be_bytes(data.len(), 4) + data
}

/// The frame that shares `data` with the phone under the number `seq`.
pub fn write(data: &[u8], seq: u64) -> (r: Result<Vec<u8>, &'static str>)
    ensures
        match r {
            Ok(frame) => is_valid(data@) && seq != 0 && frame@ == frame_of(data@, seq),
            Err(e) => !(is_valid(data@) && seq != 0) && e@
                == "Invalid clipboard text or sequence"@,
        },
{
    if !valid(data) || seq == 0 {
        return Err("Invalid clipboard text or sequence");
    }
    let mut frame: Vec<u8> = Vec::new();
    frame.push(9);
    assert(frame@ =~= seq![9u8]);
    put_number(&mut frame, seq, 8);
    frame.push(0);
    assert(frame@ =~= seq![9u8] + be_bytes(seq as nat, 8) + seq![0u8]);
    put_number(&mut frame, data.len() as u64, 4);
    let mut body = slice_to_vec(data);
    frame.append(&mut body);
    Ok(frame)
}

// ---------------------------------------------------------------------------
// Laws
// ---------------------------------------------------------------------------
/// However long a text is announced to be, no more is read at a time than the
/// longest text that is shared.
pub proof fn law_reading_is_bounded(decoder: Decoder)
    requires
        decoder.is_bounded(),
    ensures
        decoder.next_len() <= MAX_TEXT,
{
}

/// No text is taken from the phone that may not be shared.
pub proof fn law_read_texts_are_valid(s: Seq<u8>)
    ensures
        match message_in(s) {
            Ok((MessageView::Text(Some(data)), _)) => is_valid(data),
            _ => true,
        },
{
}

/// What follows a message does not change it, so that messages can be read one
/// after another.
pub proof fn law_messages_are_delimited(s: Seq<u8>, after: Seq<u8>)
    ensures
        message_in(s) matches Ok((m, n)) ==> n <= s.len() && message_in(s.take(n as int) + after)
            == Ok::<(MessageView, nat), Seq<char>>((m, n)),
{
    match message_in(s) {
        Ok((m, n)) => {
            let t = s.take(n as int) + after;
            assert(t[0] == s[0]);
            let r = s.skip(1);
            let u = t.skip(1);
            if s[0] == 0 {
                assert(u.take(4) =~= r.take(4));
                let k = be_value(r.take(4));
                assert(u.subrange(4, 4 + k as int) =~= r.subrange(4, 4 + k as int));
            } else {
                assert(u.take(8) =~= r.take(8));
            }
        },
        Err(_) => {},
    }
}

/// A text that may be shared is taken from its frame as it is.
pub proof fn law_texts_are_read_back(data: Seq<u8>, after: Seq<u8>)
    requires
        is_valid(data),
    ensures
        message_in(seq![0u8] + be_bytes(data.len(), 4) + data + after) == Ok::<
            (MessageView, nat),
            Seq<char>,
        >((MessageView::Text(Some(data)), 5 + data.len())),
{
    lemma_values();
    law_numbers_round_trip(data.len(), 4);
    let s = seq![0u8] + be_bytes(data.len(), 4) + data + after;
    let r = s.skip(1);
    assert(r.take(4) =~= be_bytes(data.len(), 4));
    assert(r.subrange(4, 4 + data.len() as int) =~= data);
}

/// An acknowledgement is taken from its frame as it is.
pub proof fn law_acknowledgements_are_read_back(seq: u64, after: Seq<u8>)
    ensures
        message_in(seq![1u8] + be_bytes(seq as nat, 8) + after) == Ok::<
            (MessageView, nat),
            Seq<char>,
        >((MessageView::Ack(seq), 9)),
{
    lemma_values();
    law_numbers_round_trip(seq as nat, 8);
    let s = seq![1u8] + be_bytes(seq as nat, 8) + after;
    assert(s.skip(1).take(8) =~= be_bytes(seq as nat, 8));
}

/// A frame tells its text and its number.
pub proof fn law_frames_are_distinct(a: Seq<u8>, m: u64, b: Seq<u8>, n: u64)
    requires
        frame_of(a, m) == frame_of(b, n),
    ensures
        a == b,
        m == n,
{
    lemma_values();
    law_numbers_round_trip(m as nat, 8);
    law_numbers_round_trip(n as nat, 8);
    lemma_be_bytes_len(a.len(), 4);
    lemma_be_bytes_len(b.len(), 4);
    let f = frame_of(a, m);
    let g = frame_of(b, n);
    assert(f.subrange(1, 9) =~= be_bytes(m as nat, 8));
    assert(g.subrange(1, 9) =~= be_bytes(n as nat, 8));
    assert(f.skip(14) =~= a);
    assert(g.skip(14) =~= b);
}

/// A text may be shared exactly where it has at most 65536 bytes, none of them zero,
/// and is UTF-8.
pub proof fn law_shareable_texts(data: Seq<u8>)
    ensures
        is_valid(data) <==> {
            &&& data.len() <= 65536
            &&& forall|i: int| 0 <= i < data.len() ==> #[trigger] data[i] != 0
            &&& valid_utf8(data)
        },
{
    if data.contains(0u8) {
        let i = choose|i: int| 0 <= i < data.len() && data[i] == 0u8;
        assert(data[i] == 0);
    }
    assert forall|i: int| 0 <= i < data.len() && !data.contains(0u8) implies #[trigger] data[i]
        != 0 by {
        if data[i] == 0 {
            assert(data.contains(data[i]));
        }
    }
}

/// The number in the four bytes from `i` on, the most significant first.
pub open spec fn four_bytes(s: Seq<u8>, i: int) -> int {
    s[i] * 0x100_0000 + s[i + 1] * 0x1_0000 + s[i + 2] * 0x100 + s[i + 3]
}

/// The number in the eight bytes from `i` on, the most significant first.
pub open spec fn eight_bytes(s: Seq<u8>, i: int) -> int {
    four_bytes(s, i) * 0x1_0000_0000 + four_bytes(s, i + 4)
}

proof fn lemma_four_bytes(s: Seq<u8>, i: int)
    requires
        0 <= i,
        i + 4 <= s.len(),
    ensures
        be_value(s.subrange(i, i + 4)) == four_bytes(s, i),
{
    let t = s.subrange(i, i + 4);
    reveal_with_fuel(be_value, 5);
    assert(t.drop_last() =~= s.subrange(i, i + 3));
    assert(s.subrange(i, i + 3).drop_last() =~= s.subrange(i, i + 2));
    assert(s.subrange(i, i + 2).drop_last() =~= s.subrange(i, i + 1));
    assert(s.subrange(i, i + 1).drop_last() =~= Seq::<u8>::empty());
}

proof fn lemma_eight_bytes(s: Seq<u8>, i: int)
    requires
        0 <= i,
        i + 8 <= s.len(),
    ensures
        be_value(s.subrange(i, i + 8)) == eight_bytes(s, i),
{
    lemma_four_bytes(s, i);
    let t = s.subrange(i, i + 8);
    assert(t.drop_last() =~= s.subrange(i, i + 7));
    assert(s.subrange(i, i + 7).drop_last() =~= s.subrange(i, i + 6));
    assert(s.subrange(i, i + 6).drop_last() =~= s.subrange(i, i + 5));
    assert(s.subrange(i, i + 5).drop_last() =~= s.subrange(i, i + 4));
    assert(be_value(s.subrange(i, i + 5)) == 256 * be_value(s.subrange(i, i + 4)) + s[i + 4]);
    assert(be_value(s.subrange(i, i + 6)) == 256 * be_value(s.subrange(i, i + 5)) + s[i + 5]);
    assert(be_value(s.subrange(i, i + 7)) == 256 * be_value(s.subrange(i, i + 6)) + s[i + 6]);
    assert(be_value(t) == 256 * be_value(s.subrange(i, i + 7)) + s[i + 7]);
}

/// A written frame is read by its own header, whatever follows it: it starts with the
/// byte 9, then comes the number of the copy in eight bytes, a zero byte, and in four
/// bytes the number of bytes of the text. The text is what these announce, and the
/// frame ends with it.
pub proof fn law_frames_describe_themselves(data: Seq<u8>, seq: u64, after: Seq<u8>)
    requires
        data.len() <= u32::MAX,
    ensures
        ({
            let s = frame_of(data, seq) + after;
            &&& s[0] == 9
            &&& eight_bytes(s, 1) == seq
            &&& s[9] == 0
            &&& four_bytes(s, 10) == data.len()
            &&& s.subrange(14, 14 + four_bytes(s, 10)) == data
            &&& s.skip(14 + four_bytes(s, 10)) == after
            &&& frame_of(data, seq).len() == 14 + data.len()
        }),
{
    lemma_values();
    law_numbers_round_trip(seq as nat, 8);
    law_numbers_round_trip(data.len(), 4);
    let s = frame_of(data, seq) + after;
    assert(s.subrange(1, 9) =~= be_bytes(seq as nat, 8));
    assert(s.subrange(10, 14) =~= be_bytes(data.len(), 4));
    lemma_eight_bytes(s, 1);
    lemma_four_bytes(s, 10);
    assert(s.subrange(14, 14 + data.len() as int) =~= data);
    assert(s.skip(14 + data.len() as int) =~= after);
}

/// What the phone says is told by the first byte. A text comes after its length in
/// four bytes, and is left out where it may not be shared; an acknowledged number
/// takes eight bytes. Anything else, and whatever breaks off, is an error.
pub proof fn law_messages_are_told_by_their_kind(s: Seq<u8>)
    ensures
        s.len() == 0 ==> message_in(s) == Err::<(MessageView, nat), Seq<char>>(
            "Android control channel closed; reconnecting"@,
        ),
        s.len() > 0 && s[0] > 1 ==> message_in(s) == Err::<(MessageView, nat), Seq<char>>(
            "Unexpected control message; incompatible server"@,
        ),
        s.len() > 0 && s[0] == 1 ==> message_in(s) == if s.len() < 9 {
            Err::<(MessageView, nat), Seq<char>>("Truncated acknowledgement"@)
        } else {
            Ok((MessageView::Ack(eight_bytes(s, 1) as u64), 9))
        },
        0 < s.len() < 5 && s[0] == 0 ==> message_in(s) == Err::<(MessageView, nat), Seq<char>>(
            "Truncated clipboard header"@,
        ),
        s.len() >= 5 && s[0] == 0 ==> {
            let n = four_bytes(s, 1);
            message_in(s) == if n > 262139 {
                Err::<(MessageView, nat), Seq<char>>(
                    "Invalid clipboard frame length; check scrcpy compatibility"@,
                )
            } else if s.len() < 5 + n {
                Err("Truncated clipboard frame"@)
            } else if n <= 65536 && !s.subrange(5, 5 + n).contains(0u8) && valid_utf8(
                s.subrange(5, 5 + n),
            ) {
                Ok((MessageView::Text(Some(s.subrange(5, 5 + n))), (5 + n) as nat))
            } else {
                Ok((MessageView::Text(None), (5 + n) as nat))
            }
        },
{
    let r = s.skip(1);
    if s.len() >= 9 {
        lemma_eight_bytes(s, 1);
        assert(r.take(8) =~= s.subrange(1, 9));
    }
    if s.len() >= 5 {
        lemma_four_bytes(s, 1);
        assert(r.take(4) =~= s.subrange(1, 5));
        let n = four_bytes(s, 1);
        if s.len() >= 5 + n {
            assert(r.subrange(4, 4 + n) =~= s.subrange(5, 5 + n));
        }
    }
}

/// A copy that was written and comes back as a text is the same text: the part of a
/// written frame from its length on, after a zero byte, is a text frame.
pub proof fn law_written_copies_can_come_back(data: Seq<u8>, seq: u64, after: Seq<u8>)
    requires
        is_valid(data),
    ensures
        message_in(frame_of(data, seq).skip(9) + after) == Ok::<(MessageView, nat), Seq<char>>(
            (MessageView::Text(Some(data)), 5 + data.len()),
        ),
{
    lemma_be_bytes_len(seq as nat, 8);
    lemma_be_bytes_len(data.len(), 4);
    assert(frame_of(data, seq).skip(9) + after =~= seq![0u8] + be_bytes(data.len(), 4) + data
        + after);
    law_texts_are_read_back(data, after);
}

/// No more than 65536 bytes are read at a time, and no more than 4096 of a text that
/// is left out.
pub proof fn law_parts_are_small(decoder: Decoder)
    requires
        decoder.is_bounded(),
    ensures
        decoder.next_len() <= 65536,
        decoder is Drain ==> decoder.next_len() <= 4096,
        decoder matches Decoder::Drain(n) ==> n > 0 ==> 0 < decoder.next_len() <= n,
{
}

} // verus!
