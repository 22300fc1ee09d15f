//! What holds of the wire protocol as a whole: what is sent is received, what is
//! received can be sent, what follows a frame does not change it, and a frame
//! that is cut short is recognised as one.
use crate::ascii::{COLON, CR, DOLLAR, LF, MINUS, PLUS, STAR};
use crate::number::{decimal, law_decimal_denotes, law_i64_round_trip, signed_decimal};
use crate::protocol::{
    crlf, ends_line, lemma_line_end_bounds, line_end, line_of, number_of, parse, parse_items, wire,
    wire_all, Fault, Frame,
};
use vstd::prelude::*;
use vstd::utf8::{
    char_u32_cast, decode_utf8, decode_utf8_encode_utf8, encode_scalar, encode_utf8,
    encode_utf8_decode_utf8, encode_utf8_valid_utf8, partial_valid_utf8_extend_ascii_block,
    valid_utf8,
};

verus! {

/// Whether `text` holds a carriage return that a line feed follows.
pub open spec fn breaks_line(text: Seq<char>) -> bool {
    exists|i: int| 0 <= i && i + 1 < text.len() && #[trigger] text[i] == '\r' && text[i + 1] == '\n'
}

/// Whether a frame can be sent: no simple string or error in it holds the
/// bytes that end a line, and every length in it fits in a signed 64-bit
/// number.
pub open spec fn sendable(frame: Frame) -> bool
    decreases frame,
{
    match frame {
        Frame::Simple(s) => !breaks_line(s),
        Frame::Error(s) => !breaks_line(s),
        Frame::Integer(_) => true,
        Frame::Bulk(None) => true,
        Frame::Bulk(Some(bytes)) => bytes.len() <= i64::MAX,
        Frame::Array(None) => true,
        Frame::Array(Some(items)) => items.len() <= i64::MAX && all_sendable(items),
    }
}

/// Whether each of several frames can be sent.
pub open spec fn all_sendable(frames: Seq<Frame>) -> bool
    decreases frames,
{
    frames.len() > 0 ==> sendable(frames[0]) && all_sendable(frames.drop_first())
}

/// Whether no simple string or error in a frame holds the bytes that end a line.
pub open spec fn unbroken(frame: Frame) -> bool
    decreases frame,
{
    match frame {
        Frame::Simple(s) => !breaks_line(s),
        Frame::Error(s) => !breaks_line(s),
        Frame::Array(Some(items)) => all_unbroken(items),
        _ => true,
    }
}

/// Whether no simple string or error in several frames holds the bytes that end
/// a line.
pub open spec fn all_unbroken(frames: Seq<Frame>) -> bool
    decreases frames,
{
    frames.len() > 0 ==> unbroken(frames[0]) && all_unbroken(frames.drop_first())
}

/// The lengths in a frame fit in a signed 64-bit number where the length of its
/// bytes does.
pub proof fn lemma_lengths_fit(frame: Frame)
    requires
        unbroken(frame),
        wire(frame).len() <= i64::MAX,
    ensures
        sendable(frame),
        wire(frame).len() > 0,
    decreases frame,
{
    if let Frame::Array(Some(items)) = frame {
        lemma_all_lengths_fit(items);
    }
}

proof fn lemma_all_lengths_fit(frames: Seq<Frame>)
    requires
        all_unbroken(frames),
        wire_all(frames).len() <= i64::MAX,
    ensures
        all_sendable(frames),
        frames.len() <= wire_all(frames).len(),
    decreases frames,
{
    if frames.len() > 0 {
        lemma_lengths_fit(frames[0]);
        lemma_all_lengths_fit(frames.drop_first());
    }
}

/// A frame takes at least three bytes, and none beyond the buffer.
pub proof fn law_frame_lies_in_the_buffer(buf: Seq<u8>)
    ensures
        parse(buf) matches Ok((_, n)) ==> 3 <= n <= buf.len(),
    decreases buf.len(), 0int,
{
    lemma_line_end_bounds(buf, 1);
    if buf.len() > 0 && buf[0] == STAR {
        match number_of(buf, "invalid array length"@) {
            Ok((len, n)) => {
                lemma_items_lie_in_the_buffer(buf.skip(n), len as int);
            },
            Err(_) => {},
        }
    }
}

proof fn lemma_items_lie_in_the_buffer(buf: Seq<u8>, count: int)
    ensures
        parse_items(buf, count) matches Ok((_, n)) ==> 0 <= n <= buf.len(),
    decreases buf.len(), 1int,
{
    if count > 0 {
        law_frame_lies_in_the_buffer(buf);
        match parse(buf) {
            Ok((_, n)) => {
                lemma_items_lie_in_the_buffer(buf.skip(n), count - 1);
            },
            Err(_) => {},
        }
    }
}

proof fn lemma_line_end_extends(buf: Seq<u8>, more: Seq<u8>, from: int)
    requires
        0 <= from,
        line_end(buf, from) is Some,
    ensures
        line_end(buf + more, from) == line_end(buf, from),
    decreases buf.len() - from,
{
    if !ends_line(buf, from) {
        lemma_line_end_extends(buf, more, from + 1);
    }
}

proof fn lemma_line_of_extends(buf: Seq<u8>, more: Seq<u8>)
    requires
        line_of(buf) != Err::<(Seq<u8>, int), Fault>(Fault::Incomplete),
    ensures
        line_of(buf + more) == line_of(buf),
{
    lemma_line_end_extends(buf, more, 1);
    lemma_line_end_bounds(buf, 1);
    let i = line_end(buf, 1)->0;
    assert((buf + more).subrange(1, i) =~= buf.subrange(1, i));
}

/// Bytes that were read as a frame, or refused for good, are so whatever
/// follows them: only an incomplete frame waits for more.
pub proof fn law_what_follows_does_not_matter(buf: Seq<u8>, more: Seq<u8>)
    requires
        parse(buf) != Err::<(Frame, int), Fault>(Fault::Incomplete),
    ensures
        parse(buf + more) == parse(buf),
    decreases buf.len(), 0int,
{
    let all = buf + more;
    if buf[0] == PLUS || buf[0] == MINUS || buf[0] == COLON || buf[0] == DOLLAR || buf[0] == STAR {
        lemma_line_of_extends(buf, more);
        lemma_line_end_bounds(buf, 1);
    }
    if buf[0] == DOLLAR {
        match number_of(buf, "invalid bulk length"@) {
            Ok((len, n)) => if len >= 0 {
                assert(all.subrange(n, n + len) =~= buf.subrange(n, n + len));
            },
            Err(_) => {},
        }
    }
    if buf[0] == STAR {
        match number_of(buf, "invalid array length"@) {
            Ok((len, n)) => if len >= 0 {
                assert(all.skip(n) =~= buf.skip(n) + more);
                lemma_items_whatever_follows(buf.skip(n), more, len as int);
            },
            Err(_) => {},
        }
    }
}

proof fn lemma_items_whatever_follows(buf: Seq<u8>, more: Seq<u8>, count: int)
    requires
        parse_items(buf, count) != Err::<(Seq<Frame>, int), Fault>(Fault::Incomplete),
    ensures
        parse_items(buf + more, count) == parse_items(buf, count),
    decreases buf.len(), 1int,
{
    if count > 0 {
        law_what_follows_does_not_matter(buf, more);
        match parse(buf) {
            Ok((_, n)) => {
                assert((buf + more).skip(n) =~= buf.skip(n) + more);
                lemma_items_whatever_follows(buf.skip(n), more, count - 1);
            },
            Err(_) => {},
        }
    }
}

/// Every byte of the encoding of a character beyond ASCII is beyond ASCII.
proof fn lemma_wide_scalar_bytes(scalar: u32, i: int)
    requires
        scalar > 0x7f,
        0 <= i < encode_scalar(scalar).len(),
    ensures
        encode_scalar(scalar)[i] >= 0x80,
{
    assert(0xC0u8 | ((scalar >> 6) & 0x1F) as u8 >= 0x80) by (bit_vector);
    assert(0xE0u8 | ((scalar >> 12) & 0x0F) as u8 >= 0x80) by (bit_vector);
    assert(0xF0u8 | ((scalar >> 18) & 0x7) as u8 >= 0x80) by (bit_vector);
    assert(0x80u8 | (scalar & 0x3F) as u8 >= 0x80) by (bit_vector);
    assert(0x80u8 | ((scalar >> 6) & 0x3F) as u8 >= 0x80) by (bit_vector);
    assert(0x80u8 | ((scalar >> 12) & 0x3F) as u8 >= 0x80) by (bit_vector);
}

/// An ASCII character is encoded as itself.
proof fn lemma_narrow_scalar_bytes(scalar: u32)
    requires
        scalar <= 0x7f,
    ensures
        encode_scalar(scalar) == seq![scalar as u8],
{
    assert((scalar & 0x7F) as u8 == scalar as u8) by (bit_vector)
        requires
            scalar <= 0x7f,
    ;
}

/// Text without a line break is encoded without one.
proof fn lemma_no_line_break(text: Seq<char>, i: int)
    requires
        ends_line(encode_utf8(text), i),
    ensures
        breaks_line(text),
    decreases text.len(),
{
    let bytes = encode_utf8(text);
    let head = encode_scalar(text[0] as u32);
    let tail = text.drop_first();
    assert(bytes =~= head + encode_utf8(tail));
    if i < head.len() {
        if text[0] as u32 > 0x7f {
            lemma_wide_scalar_bytes(text[0] as u32, i);
        } else {
            lemma_narrow_scalar_bytes(text[0] as u32);
            let c = text[0] as u32;
            assert(c == CR) by (bit_vector)
                requires
                    c as u8 == 13,
                    c <= 0x7f,
            ;
            char_u32_cast(text[0], c);
            char_u32_cast('\r', c);
            if tail[0] as u32 > 0x7f {
                lemma_wide_scalar_bytes(tail[0] as u32, 0);
            } else {
                lemma_narrow_scalar_bytes(tail[0] as u32);
                let d = tail[0] as u32;
                assert(d == LF) by (bit_vector)
                    requires
                        d as u8 == 10,
                        d <= 0x7f,
                ;
                char_u32_cast(tail[0], d);
                char_u32_cast('\n', d);
            }
        }
    } else {
        lemma_no_line_break(tail, i - head.len());
    }
}

/// A line that is written after a tag is found again.
proof fn lemma_line_is_found(tag: u8, line: Seq<u8>, rest: Seq<u8>)
    requires
        valid_utf8(line),
        forall|i: int| !ends_line(line, i),
    ensures
        line_of(seq![tag] + line + crlf() + rest) == Ok::<(Seq<u8>, int), Fault>(
            (line, line.len() as int + 3),
        ),
{
    let buf = seq![tag] + line + crlf() + rest;
    let end = line.len() + 1;
    assert(ends_line(buf, end as int));
    assert forall|j: int| 1 <= j < end implies !#[trigger] ends_line(buf, j) by {
        assert(!ends_line(line, j - 1));
    }
    lemma_line_end_bounds(buf, 1);
    assert(buf.subrange(1, end as int) =~= line);
}

/// A number that is written after a tag is found again.
proof fn lemma_number_is_found(tag: u8, n: i64, rest: Seq<u8>, complaint: Seq<char>)
    ensures
        number_of(seq![tag] + signed_decimal(n as int) + crlf() + rest, complaint) == Ok::<
            (i64, int),
            Fault,
        >((n, signed_decimal(n as int).len() as int + 3)),
{
    let line = signed_decimal(n as int);
    law_i64_round_trip(n);
    law_decimal_denotes(if n < 0 {
        (-(n as int)) as nat
    } else {
        n as nat
    });
    partial_valid_utf8_extend_ascii_block(line, 0, line.len() as int);
    assert(line.subrange(0, line.len() as int) =~= line);
    lemma_line_is_found(tag, line, rest);
}

/// A frame that was sent is received: whatever follows it, the receiver reads
/// that frame, and takes exactly the bytes that were sent for it.
pub proof fn law_what_is_sent_is_received(frame: Frame, rest: Seq<u8>)
    requires
        sendable(frame),
    ensures
        parse(wire(frame) + rest) == Ok::<(Frame, int), Fault>((frame, wire(frame).len() as int)),
    decreases frame,
{
    let buf = wire(frame) + rest;
    match frame {
        Frame::Simple(s) => {
            lemma_text_is_found(PLUS, s, rest);
        },
        Frame::Error(s) => {
            lemma_text_is_found(MINUS, s, rest);
        },
        Frame::Integer(n) => {
            lemma_number_is_found(COLON, n, rest, "invalid integer"@);
        },
        Frame::Bulk(None) => {
            lemma_number_is_found(DOLLAR, -1i64, rest, "invalid bulk length"@);
        },
        Frame::Bulk(Some(bytes)) => {
            let len = bytes.len() as i64;
            let body = bytes + crlf() + rest;
            let head = seq![DOLLAR] + decimal(bytes.len()) + crlf();
            lemma_number_is_found(DOLLAR, len, body, "invalid bulk length"@);
            assert(buf =~= head + body);
            let n = head.len() as int;
            assert(buf.subrange(n, n + len) =~= bytes);
        },
        Frame::Array(None) => {
            lemma_number_is_found(STAR, -1i64, rest, "invalid array length"@);
        },
        Frame::Array(Some(items)) => {
            let len = items.len() as i64;
            let body = wire_all(items) + rest;
            let head = seq![STAR] + decimal(items.len()) + crlf();
            lemma_number_is_found(STAR, len, body, "invalid array length"@);
            assert(buf =~= head + body);
            assert(buf.skip(head.len() as int) =~= body);
            lemma_all_that_is_sent_is_received(items, rest);
        },
    }
}

proof fn lemma_text_is_found(tag: u8, text: Seq<char>, rest: Seq<u8>)
    requires
        !breaks_line(text),
    ensures
        line_of(seq![tag] + encode_utf8(text) + crlf() + rest) == Ok::<(Seq<u8>, int), Fault>(
            (encode_utf8(text), encode_utf8(text).len() as int + 3),
        ),
        decode_utf8(encode_utf8(text)) == text,
{
    encode_utf8_valid_utf8(text);
    encode_utf8_decode_utf8(text);
    assert forall|i: int| !ends_line(encode_utf8(text), i) by {
        if ends_line(encode_utf8(text), i) {
            lemma_no_line_break(text, i);
        }
    }
    lemma_line_is_found(tag, encode_utf8(text), rest);
}

/// Frames that were sent one after the other are received in that order.
pub proof fn lemma_all_that_is_sent_is_received(frames: Seq<Frame>, rest: Seq<u8>)
    requires
        all_sendable(frames),
    ensures
        parse_items(wire_all(frames) + rest, frames.len() as int) == Ok::<(Seq<Frame>, int), Fault>(
            (frames, wire_all(frames).len() as int),
        ),
    decreases frames,
{
    if frames.len() > 0 {
        let tail = frames.drop_first();
        let after = wire_all(tail) + rest;
        let buf = wire_all(frames) + rest;
        assert(buf =~= wire(frames[0]) + after);
        law_what_is_sent_is_received(frames[0], after);
        assert(buf.skip(wire(frames[0]).len() as int) =~= after);
        lemma_all_that_is_sent_is_received(tail, rest);
        assert(seq![frames[0]] + tail =~= frames);
    } else {
        assert(frames =~= Seq::<Frame>::empty());
    }
}

/// A frame that is cut short, wherever that is, is incomplete: never a frame,
/// and never refused for good.
pub proof fn law_a_cut_frame_is_incomplete(frame: Frame, n: int)
    requires
        sendable(frame),
        0 <= n < wire(frame).len(),
    ensures
        parse(wire(frame).take(n)) == Err::<(Frame, int), Fault>(Fault::Incomplete),
{
    let bytes = wire(frame);
    let cut = bytes.take(n);
    law_what_is_sent_is_received(frame, Seq::empty());
    assert(cut + bytes.skip(n) =~= bytes);
    law_frame_lies_in_the_buffer(cut);
    if parse(cut) != Err::<(Frame, int), Fault>(Fault::Incomplete) {
        law_what_follows_does_not_matter(cut, bytes.skip(n));
    }
}

/// Text with a line break is encoded with one.
proof fn lemma_line_break_is_encoded(text: Seq<char>) -> (i: int)
    requires
        breaks_line(text),
    ensures
        ends_line(encode_utf8(text), i),
    decreases text.len(),
{
    let j = choose|j: int|
        0 <= j && j + 1 < text.len() && #[trigger] text[j] == '\r' && text[j + 1] == '\n';
    let tail = text.drop_first();
    let head = encode_scalar(text[0] as u32);
    assert(encode_utf8(text) =~= head + encode_utf8(tail));
    if j == 0 {
        let second = encode_scalar(tail[0] as u32);
        assert(encode_utf8(tail) =~= second + encode_utf8(tail.drop_first()));
        lemma_narrow_scalar_bytes(text[0] as u32);
        lemma_narrow_scalar_bytes(tail[0] as u32);
        0
    } else {
        assert(tail[j - 1] == '\r' && tail[j] == '\n');
        let i = lemma_line_break_is_encoded(tail);
        i + head.len()
    }
}

/// The text of a line that was received does not break the line.
proof fn lemma_received_line_does_not_break(buf: Seq<u8>)
    ensures
        line_of(buf) matches Ok((line, _)) ==> !breaks_line(decode_utf8(line)),
{
    if let Ok((line, n)) = line_of(buf) {
        lemma_line_end_bounds(buf, 1);
        decode_utf8_encode_utf8(line);
        if breaks_line(decode_utf8(line)) {
            let i = lemma_line_break_is_encoded(decode_utf8(line));
            assert(ends_line(buf, i + 1));
        }
    }
}

/// A frame that was received can be sent.
pub proof fn law_what_is_received_can_be_sent(buf: Seq<u8>)
    ensures
        parse(buf) matches Ok((frame, _)) ==> sendable(frame),
    decreases buf.len(), 0int,
{
    lemma_line_end_bounds(buf, 1);
    lemma_received_line_does_not_break(buf);
    if buf.len() > 0 && buf[0] == STAR {
        if let Ok((len, n)) = number_of(buf, "invalid array length"@) {
            lemma_received_items_can_be_sent(buf.skip(n), len as int);
        }
    }
}

proof fn lemma_received_items_can_be_sent(buf: Seq<u8>, count: int)
    ensures
        parse_items(buf, count) matches Ok((items, _)) ==> all_sendable(items) && (count >= 0
            ==> items.len() == count),
    decreases buf.len(), 1int,
{
    if count > 0 {
        law_what_is_received_can_be_sent(buf);
        law_frame_lies_in_the_buffer(buf);
        if let Ok((first, n)) = parse(buf) {
            lemma_received_items_can_be_sent(buf.skip(n), count - 1);
            if let Ok((rest, _)) = parse_items(buf.skip(n), count - 1) {
                assert((seq![first] + rest).drop_first() =~= rest);
            }
        }
    }
}

/// Each of several frames that can be sent can be sent.
pub proof fn lemma_each_can_be_sent(frames: Seq<Frame>, i: int)
    requires
        all_sendable(frames),
        0 <= i < frames.len(),
    ensures
        sendable(frames[i]),
    decreases frames.len(),
{
    if i > 0 {
        lemma_each_can_be_sent(frames.drop_first(), i - 1);
    }
}

/// A line ends at the same place in a buffer that is cut behind it.
proof fn lemma_line_end_in_cut(buf: Seq<u8>, from: int, n: int)
    requires
        0 <= from,
        line_end(buf, from) matches Some(i) && i + 2 <= n <= buf.len(),
    ensures
        line_end(buf.take(n), from) == line_end(buf, from),
    decreases buf.len() - from,
{
    lemma_line_end_bounds(buf, from);
    assert(ends_line(buf.take(n), from) == ends_line(buf, from));
    if !ends_line(buf, from) {
        lemma_line_end_in_cut(buf, from + 1, n);
    }
}

proof fn lemma_line_of_cut(buf: Seq<u8>, n: int)
    requires
        line_of(buf) matches Ok((_, m)) && m <= n <= buf.len(),
    ensures
        line_of(buf.take(n)) == line_of(buf),
{
    lemma_line_end_in_cut(buf, 1, n);
    lemma_line_end_bounds(buf, 1);
    let i = line_end(buf, 1)->0;
    assert(buf.take(n).subrange(1, i) =~= buf.subrange(1, i));
}

/// A frame depends on the bytes that it takes, and on no others.
pub proof fn law_a_frame_depends_on_its_own_bytes(buf: Seq<u8>)
    ensures
        parse(buf) matches Ok((_, n)) ==> parse(buf.take(n)) == parse(buf),
    decreases buf.len(), 0int,
{
    if let Ok((frame, n)) = parse(buf) {
        law_frame_lies_in_the_buffer(buf);
        lemma_line_end_bounds(buf, 1);
        let own = buf.take(n);
        assert(own[0] == buf[0]);
        if buf[0] == STAR {
            let (len, m) = number_of(buf, "invalid array length"@)->Ok_0;
            if len >= 0 {
                lemma_items_lie_in_the_buffer(buf.skip(m), len as int);
                lemma_items_depend_on_their_own_bytes(buf.skip(m), len as int);
                assert(own.skip(m) =~= buf.skip(m).take(n - m));
            }
        }
        if buf[0] == DOLLAR {
            let (len, m) = number_of(buf, "invalid bulk length"@)->Ok_0;
            if len >= 0 {
                assert(ends_line(own, m + len) == ends_line(buf, m + len));
                assert(own.subrange(m, m + len) =~= buf.subrange(m, m + len));
            }
        }
        lemma_line_of_cut(buf, n);
    }
}

proof fn lemma_items_depend_on_their_own_bytes(buf: Seq<u8>, count: int)
    ensures
        parse_items(buf, count) matches Ok((_, m)) ==> parse_items(buf.take(m), count)
            == parse_items(buf, count),
    decreases buf.len(), 1int,
{
    if count > 0 {
        if let Ok((_, m)) = parse_items(buf, count) {
            law_frame_lies_in_the_buffer(buf);
            law_a_frame_depends_on_its_own_bytes(buf);
            let (_, n) = parse(buf)->Ok_0;
            let rest = buf.skip(n);
            lemma_items_lie_in_the_buffer(rest, count - 1);
            lemma_items_depend_on_their_own_bytes(rest, count - 1);
            let own = buf.take(m);
            assert(own =~= buf.take(n) + rest.take(m - n));
            law_what_follows_does_not_matter(buf.take(n), rest.take(m - n));
            assert(own.skip(n) =~= rest.take(m - n));
        }
    }
}

} // verus!
