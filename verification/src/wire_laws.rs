//! What stands on the wire, byte for byte: how each kind of value is written,
//! and what each sequence of bytes is read as.
use crate::number::{decimal, i64_of, signed_decimal};
use crate::number_laws::{
    denotes, digits, law_numbers_are_written_in_digits, law_signed_numbers_are_read, weight,
};
use crate::protocol::{
    ends_line, fault_message, frames_of, lemma_frames_of, lemma_line_end_bounds, line_end, outcome,
    parse, parse_items, wire, wire_all, Fault, Frame, ProtocolError, Value,
};
use crate::protocol_laws::law_frame_lies_in_the_buffer;
use vstd::prelude::*;
use vstd::utf8::{
    decode_utf8, encode_utf8, is_leading_byte_width_1, partial_valid_utf8_extend_ascii_block,
    valid_utf8,
};

verus! {

/// Whether a carriage return that a line feed follows stands in bytes.
pub open spec fn broken(bytes: Seq<u8>) -> bool {
    exists|i: int| 0 <= i && i + 1 < bytes.len() && #[trigger] bytes[i] == 13 && bytes[i + 1] == 10
}

/// A line behind a tag, with its end, and what follows it.
pub open spec fn tagged(tag: u8, line: Seq<u8>, rest: Seq<u8>) -> Seq<u8> {
    seq![tag] + line + seq![13u8, 10u8] + rest
}

/// A value holds what it was made of.
pub proof fn law_a_value_holds_what_it_was_made_of(
    text: String,
    n: i64,
    bytes: Vec<u8>,
    items: Vec<Value>,
    i: int,
)
    ensures
        Value::Simple(text)@ == Frame::Simple(text@),
        Value::Error(text)@ == Frame::Error(text@),
        Value::Integer(n)@ == Frame::Integer(n),
        Value::Bulk(None)@ == Frame::Bulk(None),
        Value::Bulk(Some(bytes))@ == Frame::Bulk(Some(bytes@)),
        Value::Array(None)@ == Frame::Array(None),
        Value::Array(Some(items))@ == Frame::Array(Some(frames_of(items@))),
        frames_of(items@).len() == items@.len(),
        0 <= i < items@.len() ==> frames_of(items@)[i] == items@[i]@,
{
    lemma_frames_of(items@);
}

/// A text is written behind `+`, an error behind `-`, as UTF-8 and up to the
/// end of the line.
pub proof fn law_how_texts_are_written(text: Seq<char>)
    ensures
        wire(Frame::Simple(text)) == tagged(43, encode_utf8(text), Seq::empty()),
        wire(Frame::Error(text)) == tagged(45, encode_utf8(text), Seq::empty()),
{
    assert(wire(Frame::Simple(text)) =~= tagged(43, encode_utf8(text), Seq::empty()));
    assert(wire(Frame::Error(text)) =~= tagged(45, encode_utf8(text), Seq::empty()));
}

/// An integer is written behind `:`, in digits that denote that very integer,
/// behind `-` where it is negative, without a zero in front.
pub proof fn law_how_integers_are_written(n: i64) -> (line: Seq<u8>)
    ensures
        wire(Frame::Integer(n)) == tagged(58, line, Seq::empty()),
        denotes(line, n as int),
        n >= 0 ==> digits(line) && weight(line) == n && (n >= 10 ==> line[0] != 48) && (n < 10
            ==> line.len() == 1),
        n < 0 ==> {
            &&& line[0] == 45
            &&& digits(line.drop_first())
            &&& weight(line.drop_first()) == -n
            &&& line[1] != 48
        },
{
    let line = signed_decimal(n as int);
    law_numbers_are_written_in_digits(n as int);
    law_numbers_are_written_in_digits(-(n as int));
    assert(wire(Frame::Integer(n)) =~= tagged(58, line, Seq::empty()));
    if n < 0 {
        let positive = signed_decimal(-(n as int));
        assert(line.drop_first() =~= positive);
        if positive[0] == 48 {
            assert(positive.len() == 1);
            assert(positive.drop_first() =~= Seq::<u8>::empty());
            assert(weight(positive) == (positive[0] - 48) * vstd::arithmetic::power::pow(10, 0)
                + weight(positive.drop_first()));
        }
    }
    line
}

/// A bulk string is written behind `$` and its length in digits, and then as it
/// is, with the end of a line behind it; an array behind `*` and its length in
/// digits, and then as its items one after the other. Null has the length `-1`.
pub proof fn law_how_bulk_strings_and_arrays_are_written(bytes: Seq<u8>, items: Seq<Frame>) -> (
    lines: (Seq<u8>, Seq<u8>))
    ensures
        wire(Frame::Bulk(Some(bytes))) == tagged(36, lines.0, bytes + seq![13u8, 10u8]),
        digits(lines.0) && weight(lines.0) == bytes.len(),
        bytes.len() >= 10 ==> lines.0[0] != 48,
        bytes.len() < 10 ==> lines.0.len() == 1,
        wire(Frame::Array(Some(items))) == tagged(42, lines.1, wire_all(items)),
        digits(lines.1) && weight(lines.1) == items.len(),
        items.len() >= 10 ==> lines.1[0] != 48,
        items.len() < 10 ==> lines.1.len() == 1,
        wire_all(Seq::empty()) == Seq::<u8>::empty(),
        items.len() > 0 ==> wire_all(items) == wire(items[0]) + wire_all(items.drop_first()),
        wire(Frame::Bulk(None)) == tagged(36, seq![45u8, 49u8], Seq::empty()),
        wire(Frame::Array(None)) == tagged(42, seq![45u8, 49u8], Seq::empty()),
{
    law_numbers_are_written_in_digits(bytes.len() as int);
    law_numbers_are_written_in_digits(items.len() as int);
    let (a, b) = (decimal(bytes.len()), decimal(items.len()));
    assert(wire(Frame::Bulk(Some(bytes))) =~= tagged(36, a, bytes + seq![13u8, 10u8]));
    assert(wire(Frame::Array(Some(items))) == seq![42u8] + b + seq![13u8, 10u8] + wire_all(items));
    assert(decimal(1) == seq![49u8]);
    assert(signed_decimal(-1) =~= seq![45u8, 49u8]);
    assert(wire(Frame::Bulk(None)) =~= tagged(36, seq![45u8, 49u8], Seq::empty()));
    assert(wire(Frame::Array(None)) =~= tagged(42, seq![45u8, 49u8], Seq::empty()));
    (a, b)
}

/// The first line behind a tag is found.
proof fn lemma_line_behind_tag(tag: u8, line: Seq<u8>, rest: Seq<u8>)
    requires
        !broken(line),
    ensures
        line_end(tagged(tag, line, rest), 1) == Some(line.len() + 1int),
        tagged(tag, line, rest).subrange(1, line.len() + 1int) == line,
        tagged(tag, line, rest).skip(line.len() + 3int) == rest,
        tagged(tag, line, rest).len() == line.len() + 3int + rest.len(),
{
    let buf = tagged(tag, line, rest);
    let end = line.len() + 1int;
    assert(ends_line(buf, end));
    assert forall|j: int| 1 <= j < end implies !#[trigger] ends_line(buf, j) by {
        if ends_line(buf, j) {
            assert(line[j - 1] == buf[j]);
            if j < end - 1 {
                assert(line[j] == buf[j + 1]);
                assert(broken(line));
            } else {
                assert(buf[j + 1] == 13);
            }
        }
    }
    lemma_line_end_bounds(buf, 1);
    assert(line_end(buf, 1) == Some(end));
    assert(buf.subrange(1, end) =~= line);
    assert(buf.skip(line.len() + 3int) =~= rest);
}

/// A line that denotes a number is text, and does not break.
proof fn lemma_numerals_are_lines(line: Seq<u8>, n: int)
    requires
        denotes(line, n),
    ensures
        !broken(line),
        valid_utf8(line),
{
    assert forall|i: int| 0 <= i < line.len() implies 43 <= #[trigger] line[i] <= 57 by {
        if i > 0 {
            assert(line.drop_first()[i - 1] == line[i]);
        }
    }
    assert(forall|i: int| 0 <= i < line.len() ==> is_leading_byte_width_1(#[trigger] line[i]));
    assert(line.subrange(0, 0) =~= Seq::<u8>::empty());
    partial_valid_utf8_extend_ascii_block(line, 0, line.len() as int);
    assert(line.subrange(0, line.len() as int) =~= line);
}

/// A line of text behind `+` or `-` is read as that text; a line that is no text
/// is refused, whatever its tag.
pub proof fn law_texts_are_read(line: Seq<u8>, rest: Seq<u8>)
    requires
        !broken(line),
    ensures
        valid_utf8(line) ==> parse(tagged(43, line, rest)) == Ok::<(Frame, int), Fault>(
            (Frame::Simple(decode_utf8(line)), line.len() + 3int),
        ),
        valid_utf8(line) ==> parse(tagged(45, line, rest)) == Ok::<(Frame, int), Fault>(
            (Frame::Error(decode_utf8(line)), line.len() + 3int),
        ),
        !valid_utf8(line) ==> forall|tag: u8|
            tag == 43 || tag == 45 || tag == 58 || tag == 36 || tag == 42 ==> #[trigger] parse(
                tagged(tag, line, rest),
            ) == Err::<(Frame, int), Fault>(Fault::Malformed("not valid UTF-8"@)),
{
    assert forall|tag: u8|
        line_end(#[trigger] tagged(tag, line, rest), 1) == Some(line.len() + 1int)
        && tagged(tag, line, rest).subrange(1, line.len() + 1int) == line && tagged(
        tag,
        line,
        rest,
    )[0] == tag && tagged(tag, line, rest).len() > 0 by {
        lemma_line_behind_tag(tag, line, rest);
    }
}

/// A line behind `:` is read as the integer that it denotes in base ten, and as
/// no other.
pub proof fn law_integers_are_read(line: Seq<u8>, rest: Seq<u8>, n: i64)
    requires
        denotes(line, n as int),
    ensures
        parse(tagged(58, line, rest)) == Ok::<(Frame, int), Fault>(
            (Frame::Integer(n), line.len() + 3int),
        ),
{
    lemma_numerals_are_lines(line, n as int);
    lemma_line_behind_tag(58, line, rest);
    law_signed_numbers_are_read(line, n);
}

/// Text behind `:`, `$` or `*` that denotes no number that fits in 64 bits is
/// refused.
pub proof fn law_bad_numbers_are_refused(line: Seq<u8>, rest: Seq<u8>)
    requires
        !broken(line),
        valid_utf8(line),
        forall|n: i64| !denotes(line, n as int),
    ensures
        parse(tagged(58, line, rest)) == Err::<(Frame, int), Fault>(
            Fault::Malformed("invalid integer"@),
        ),
        parse(tagged(36, line, rest)) == Err::<(Frame, int), Fault>(
            Fault::Malformed("invalid bulk length"@),
        ),
        parse(tagged(42, line, rest)) == Err::<(Frame, int), Fault>(
            Fault::Malformed("invalid array length"@),
        ),
{
    lemma_line_behind_tag(58, line, rest);
    lemma_line_behind_tag(36, line, rest);
    lemma_line_behind_tag(42, line, rest);
    if let Some(n) = i64_of(line) {
        law_signed_numbers_are_read(line, n);
    }
}

/// A length behind `$` is followed by that many bytes, which are the bulk
/// string, and the end of a line. A negative length is that of null.
pub proof fn law_bulk_strings_are_read(line: Seq<u8>, rest: Seq<u8>, len: i64)
    requires
        denotes(line, len as int),
    ensures
        parse(tagged(36, line, rest)) == if len < 0 {
            Ok::<(Frame, int), Fault>((Frame::Bulk(None), line.len() + 3int))
        } else if rest.len() < len + 2 {
            Err(Fault::Incomplete)
        } else if rest[len as int] == 13 && rest[len + 1] == 10 {
            Ok((Frame::Bulk(Some(rest.take(len as int))), line.len() + 3int + len + 2))
        } else {
            Err(Fault::Malformed("bulk string not CRLF-terminated"@))
        },
{
    lemma_numerals_are_lines(line, len as int);
    lemma_line_behind_tag(36, line, rest);
    law_signed_numbers_are_read(line, len);
    let buf = tagged(36, line, rest);
    let at = line.len() + 3int;
    if len >= 0 && rest.len() >= len + 2 {
        assert(buf[at + len] == rest[len as int]);
        assert(buf[at + len + 1] == rest[len + 1]);
        assert(buf.subrange(at, at + len) =~= rest.take(len as int));
    }
}

/// A length behind `*` is followed by that many frames, which are the items of
/// the array. A negative length is that of null.
pub proof fn law_arrays_are_read(line: Seq<u8>, rest: Seq<u8>, len: i64)
    requires
        denotes(line, len as int),
    ensures
        parse(tagged(42, line, rest)) == if len < 0 {
            Ok::<(Frame, int), Fault>((Frame::Array(None), line.len() + 3int))
        } else {
            match parse_items(rest, len as int) {
                Ok((items, n)) => Ok((Frame::Array(Some(items)), line.len() + 3int + n)),
                Err(fault) => Err(fault),
            }
        },
{
    lemma_numerals_are_lines(line, len as int);
    lemma_line_behind_tag(42, line, rest);
    law_signed_numbers_are_read(line, len);
    assert(parse(tagged(42, line, rest)) == if len < 0 {
        Ok::<(Frame, int), Fault>((Frame::Array(None), line.len() + 3int))
    } else {
        match parse_items(tagged(42, line, rest).skip(line.len() + 3int), len as int) {
            Ok((items, n)) => Ok((Frame::Array(Some(items)), line.len() + 3int + n)),
            Err(fault) => Err(fault),
        }
    });
}

/// The items of an array are read one after the other, each behind the one
/// before it; what is wrong with the first that is not there is wrong with all.
pub proof fn law_items_are_read_in_order(buf: Seq<u8>, count: int)
    ensures
        count <= 0 ==> parse_items(buf, count) == Ok::<(Seq<Frame>, int), Fault>(
            (Seq::empty(), 0),
        ),
        count > 0 ==> match parse(buf) {
            Err(fault) => parse_items(buf, count) == Err::<(Seq<Frame>, int), Fault>(fault),
            Ok((first, n)) => match parse_items(buf.skip(n), count - 1) {
                Err(fault) => parse_items(buf, count) == Err::<(Seq<Frame>, int), Fault>(fault),
                Ok((others, m)) => parse_items(buf, count) == Ok::<(Seq<Frame>, int), Fault>(
                    (seq![first] + others, n + m),
                ),
            },
        },
{
    law_frame_lies_in_the_buffer(buf);
}

/// A line that has not ended waits for more.
pub proof fn law_an_open_line_waits(buf: Seq<u8>)
    requires
        buf.len() == 0 || (buf[0] == 43 || buf[0] == 45 || buf[0] == 58 || buf[0] == 36 || buf[0]
            == 42) && !broken(buf.drop_first()),
    ensures
        parse(buf) == Err::<(Frame, int), Fault>(Fault::Incomplete),
{
    lemma_line_end_bounds(buf, 1);
    if let Some(i) = line_end(buf, 1) {
        let tail = buf.drop_first();
        assert(tail[i - 1] == 13 && tail[i] == 10);
    }
}

/// Bytes that start with none of the five tags are refused.
pub proof fn law_an_unknown_tag_is_refused(buf: Seq<u8>)
    requires
        buf.len() > 0,
        buf[0] != 43 && buf[0] != 45 && buf[0] != 58 && buf[0] != 36 && buf[0] != 42,
    ensures
        parse(buf) == Err::<(Frame, int), Fault>(
            Fault::Malformed("unknown type tag '"@ + seq![buf[0] as char] + "'"@),
        ),
{
}

/// What a user is told of a fault.
pub proof fn law_how_faults_are_told(msg: Seq<char>)
    ensures
        fault_message(Fault::Incomplete) == "incomplete frame"@,
        fault_message(Fault::Malformed(msg)) == "malformed frame: "@ + msg,
{
}

/// What is reported of reading a value is the value, or the fault, and the place
/// where the value ends.
pub proof fn law_how_readings_are_reported(value: Value, end: usize, start: int, msg: String)
    ensures
        outcome(Ok((value, end)), start) == Ok::<(Frame, int), Fault>((value@, end - start)),
        outcome(Err(ProtocolError::Incomplete), start) == Err::<(Frame, int), Fault>(
            Fault::Incomplete,
        ),
        outcome(Err(ProtocolError::Malformed(msg)), start) == Err::<(Frame, int), Fault>(
            Fault::Malformed(msg@),
        ),
{
}

} // verus!
