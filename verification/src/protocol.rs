//! A RESP-inspired wire protocol: the same five value types Redis uses
//! (simple string, error, integer, bulk string, array), encoded the same
//! way, so any existing RESP client can talk to kvforge without a custom
//! driver.
use crate::ascii::{COLON, CR, DOLLAR, LF, MINUS, PLUS, STAR};
use crate::number::{
    decimal, i64_of, push_decimal, push_signed_decimal, read_i64, signed_decimal,
};
use crate::protocol_laws::{law_what_is_sent_is_received, lemma_lengths_fit, unbroken};
use vstd::prelude::*;
use vstd::slice::{slice_subrange, slice_to_vec};
use vstd::utf8::{decode_utf8, decode_utf8_encode_utf8, encode_utf8, valid_utf8};

verus! {

/// A single protocol value, either sent as a request element or received as
/// a response.
#[derive(Debug, PartialEq, Eq)]
pub enum Value {
    /// `+OK\r\n`: short, trusted, no embedded CR/LF.
    Simple(String),
    /// `-ERR message\r\n`
    Error(String),
    /// `:123\r\n`
    Integer(i64),
    /// `$6\r\nfoobar\r\n`, or `None` for the null bulk string `$-1\r\n`.
    Bulk(Option<Vec<u8>>),
    /// `*2\r\n...\r\n`, or `None` for the null array `*-1\r\n`.
    Array(Option<Vec<Value>>),
}

/// What a [`Value`] holds, as a mathematical value.
pub enum Frame {
    Simple(Seq<char>),
    Error(Seq<char>),
    Integer(i64),
    Bulk(Option<Seq<u8>>),
    Array(Option<Seq<Frame>>),
}

impl View for Value {
    type V = Frame;

    open spec fn view(&self) -> Frame
        decreases self,
    {
        match self {
            Value::Simple(s) => Frame::Simple(s@),
            Value::Error(s) => Frame::Error(s@),
            Value::Integer(n) => Frame::Integer(*n),
            Value::Bulk(None) => Frame::Bulk(None),
            Value::Bulk(Some(bytes)) => Frame::Bulk(Some(bytes@)),
            Value::Array(None) => Frame::Array(None),
            Value::Array(Some(items)) => Frame::Array(Some(frames_of(items@))),
        }
    }
}

/// What each of several values holds.
pub open spec fn frames_of(items: Seq<Value>) -> Seq<Frame>
    decreases items,
{
    if items.len() == 0 {
        Seq::empty()
    } else {
        frames_of(items.drop_last()).push(items.last()@)
    }
}

/// [`frames_of`] takes each item to its view.
pub proof fn lemma_frames_of(items: Seq<Value>)
    ensures
        frames_of(items) == Seq::new(items.len(), |i: int| items[i]@),
    decreases items.len(),
{
    if items.len() > 0 {
        lemma_frames_of(items.drop_last());
        assert(frames_of(items) == frames_of(items.drop_last()).push(items.last()@));
    }
}

/// An item of an array is a smaller value than the array.
pub proof fn lemma_item_is_smaller(value: Value, items: Vec<Value>, i: int)
    requires
        value == Value::Array(Some(items)),
        0 <= i < items@.len(),
    ensures
        decreases_to!(value => items@[i]),
{
    assert(decreases_to!(value->Array_0 => value->Array_0->Some_0));
}

impl Clone for Value {
    fn clone(&self) -> (r: Value)
        ensures
            r@ == self@,
        decreases self,
    {
        match self {
            Value::Simple(s) => Value::Simple(s.clone()),
            Value::Error(s) => Value::Error(s.clone()),
            Value::Integer(n) => Value::Integer(*n),
            Value::Bulk(None) => Value::Bulk(None),
            Value::Bulk(Some(bytes)) => Value::Bulk(Some(slice_to_vec(bytes.as_slice()))),
            Value::Array(None) => Value::Array(None),
            Value::Array(Some(items)) => {
                let mut copies: Vec<Value> = Vec::new();
                let mut i: usize = 0;
                while i < items.len()
                    invariant
                        i <= items@.len(),
                        copies@.len() == i,
                        *self == Value::Array(Some(*items)),
                        forall|k: int| 0 <= k < i ==> #[trigger] copies@[k]@ == items@[k]@,
                    decreases items@.len() - i,
                {
                    proof {
                        lemma_item_is_smaller(*self, *items, i as int);
                    }
                    let copy = items[i].clone();
                    copies.push(copy);
                    i = i + 1;
                }
                let r = Value::Array(Some(copies));
                proof {
                    lemma_frames_of(copies@);
                    lemma_frames_of(items@);
                }
                assert(frames_of(copies@) =~= frames_of(items@));
                r
            },
        }
    }
}

/// The bytes that end a line.
pub open spec fn crlf() -> Seq<u8> {
    seq![CR, LF]
}

/// The bytes that stand for a frame on the wire.
pub open spec fn wire(frame: Frame) -> Seq<u8>
    decreases frame,
{
    match frame {
        Frame::Simple(s) => seq![PLUS] + encode_utf8(s) + crlf(),
        Frame::Error(s) => seq![MINUS] + encode_utf8(s) + crlf(),
        Frame::Integer(n) => seq![COLON] + signed_decimal(n as int) + crlf(),
        Frame::Bulk(None) => seq![DOLLAR] + signed_decimal(-1) + crlf(),
        Frame::Bulk(Some(bytes)) => seq![DOLLAR] + decimal(bytes.len()) + crlf() + bytes + crlf(),
        Frame::Array(None) => seq![STAR] + signed_decimal(-1) + crlf(),
        Frame::Array(Some(items)) => seq![STAR] + decimal(items.len()) + crlf() + wire_all(items),
    }
}

/// The bytes that stand for several frames, one after the other.
pub open spec fn wire_all(frames: Seq<Frame>) -> Seq<u8>
    decreases frames,
{
    if frames.len() == 0 {
        Seq::empty()
    } else {
        wire(frames[0]) + wire_all(frames.drop_first())
    }
}

impl Value {
    /// A bulk string.
    pub fn bulk(bytes: Vec<u8>) -> (r: Value)
        ensures
            r@ == Frame::Bulk(Some(bytes@)),
    {
        Value::Bulk(Some(bytes))
    }

    /// The null bulk string.
    pub fn nil() -> (r: Value)
        ensures
            r@ == Frame::Bulk(None),
    {
        Value::Bulk(None)
    }

    /// The reply of a command that has nothing to report.
    pub fn ok() -> (r: Value)
        ensures
            r@ == Frame::Simple("OK"@),
    {
        Value::Simple("OK".to_string())
    }

    /// An error with the given message.
    pub fn error(msg: String) -> (r: Value)
        ensures
            r@ == Frame::Error(msg@),
    {
        Value::Error(msg)
    }

    /// An array of the given values.
    pub fn array(values: Vec<Value>) -> (r: Value)
        ensures
            r@ == Frame::Array(Some(frames_of(values@))),
    {
        Value::Array(Some(values))
    }

    /// The bytes that stand for this value on the wire. Whatever follows them,
    /// they are received as this value, unless a simple string or an error in
    /// it breaks its line.
    pub fn encode(&self) -> (out: Vec<u8>)
        ensures
            out@ == wire(self@),
            out@.len() <= isize::MAX,
            unbroken(self@) ==> forall|rest: Seq<u8>| #[trigger]
                parse(out@ + rest) == Ok::<(Frame, int), Fault>((self@, out@.len() as int)),
    {
        let mut out: Vec<u8> = Vec::new();
        self.encode_into(&mut out);
        size_in_bytes(out.as_slice());
        proof {
            if unbroken(self@) {
                lemma_lengths_fit(self@);
                assert forall|rest: Seq<u8>| #[trigger]
                    parse(out@ + rest) == Ok::<(Frame, int), Fault>((self@, out@.len() as int)) by {
                    law_what_is_sent_is_received(self@, rest);
                }
            }
        }
        out
    }

    /// Writes the bytes that stand for this value at the end of `out`.
    pub fn encode_into(&self, out: &mut Vec<u8>)
        ensures
            final(out)@ == old(out)@ + wire(self@),
        decreases self,
    {
        match self {
            Value::Simple(s) => {
                out.push(PLUS);
                push_bytes(out, s.as_str().as_bytes());
                push_crlf(out);
            },
            Value::Error(s) => {
                out.push(MINUS);
                push_bytes(out, s.as_str().as_bytes());
                push_crlf(out);
            },
            Value::Integer(n) => {
                out.push(COLON);
                push_signed_decimal(out, *n);
                push_crlf(out);
            },
            Value::Bulk(None) => {
                out.push(DOLLAR);
                push_signed_decimal(out, -1);
                push_crlf(out);
            },
            Value::Bulk(Some(bytes)) => {
                out.push(DOLLAR);
                push_decimal(out, size_in_bytes(bytes.as_slice()) as u128);
                push_crlf(out);
                push_bytes(out, bytes.as_slice());
                push_crlf(out);
            },
            Value::Array(None) => {
                out.push(STAR);
                push_signed_decimal(out, -1);
                push_crlf(out);
            },
            Value::Array(Some(items)) => {
                out.push(STAR);
                push_decimal(out, items.len() as u128);
                push_crlf(out);
                let ghost head = old(out)@ + (seq![STAR] + decimal(items@.len()) + crlf());
                let ghost frames = frames_of(items@);
                assert(frames.skip(0) =~= frames);
                proof {
                    lemma_frames_of(items@);
                }
                let mut i: usize = 0;
                while i < items.len()
                    invariant
                        i <= items@.len(),
                        *self == Value::Array(Some(*items)),
                        frames.len() == items@.len(),
                        forall|k: int| 0 <= k < items@.len() ==> #[trigger] frames[k] == items@[k]@,
                        out@ + wire_all(frames.skip(i as int)) == head + wire_all(frames),
                    decreases items@.len() - i,
                {
                    proof {
                        lemma_item_is_smaller(*self, *items, i as int);
                    }
                    items[i].encode_into(out);
                    proof {
                        let rest = frames.skip(i as int);
                        assert(rest.drop_first() =~= frames.skip(i + 1));
                    }
                    i = i + 1;
                }
            },
        }
    }
}

/// `std::alloc::Layout::for_value` gives the layout of an object, whose size
/// for a byte string is its length in bytes, and is at most `isize::MAX`, as
/// that of every layout.
#[verifier::external_body]
fn size_in_bytes(bytes: &[u8]) -> (n: usize)
    ensures
        n == bytes@.len(),
        n <= isize::MAX,
{
    std::alloc::Layout::for_value(bytes).size()
}

/// Writes `bytes` at the end of `out`.
fn push_bytes(out: &mut Vec<u8>, bytes: &[u8])
    ensures
        final(out)@ == old(out)@ + bytes@,
{
    out.extend_from_slice(bytes);
}

/// Ends a line.
fn push_crlf(out: &mut Vec<u8>)
    ensures
        final(out)@ == old(out)@ + crlf(),
{
    out.push(CR);
    out.push(LF);
}

/// Why bytes are not a frame.
#[derive(Debug, PartialEq, Eq)]
pub enum ProtocolError {
    /// The buffer doesn't yet contain a full value; the caller should read
    /// more bytes from the socket and retry.
    Incomplete,
    /// The buffer contains bytes that can never form a valid value.
    Malformed(String),
}

impl Clone for ProtocolError {
    fn clone(&self) -> (r: ProtocolError)
        ensures
            r == *self,
    {
        match self {
            ProtocolError::Incomplete => ProtocolError::Incomplete,
            ProtocolError::Malformed(msg) => ProtocolError::Malformed(msg.clone()),
        }
    }
}

/// What a [`ProtocolError`] says, as a mathematical value.
pub enum Fault {
    Incomplete,
    Malformed(Seq<char>),
}

impl View for ProtocolError {
    type V = Fault;

    open spec fn view(&self) -> Fault {
        match self {
            ProtocolError::Incomplete => Fault::Incomplete,
            ProtocolError::Malformed(msg) => Fault::Malformed(msg@),
        }
    }
}

/// The message for a user on a fault.
pub open spec fn fault_message(fault: Fault) -> Seq<char> {
    match fault {
        Fault::Incomplete => "incomplete frame"@,
        Fault::Malformed(msg) => "malformed frame: "@ + msg,
    }
}

impl ProtocolError {
    /// The message for a user.
    pub fn message(&self) -> (r: String)
        ensures
            r@ == fault_message(self@),
    {
        match self {
            ProtocolError::Incomplete => "incomplete frame".to_string(),
            ProtocolError::Malformed(msg) => {
                let mut out = "malformed frame: ".to_string();
                out.append(msg.as_str());
                out
            },
        }
    }
}

/// Whether the two bytes that end a line stand at `i`.
pub open spec fn ends_line(buf: Seq<u8>, i: int) -> bool {
    0 <= i && i + 1 < buf.len() && buf[i] == CR && buf[i + 1] == LF
}

/// The first place at or after `from` where a line ends.
pub open spec fn line_end(buf: Seq<u8>, from: int) -> Option<int>
    decreases buf.len() - from,
{
    if from + 1 >= buf.len() {
        None
    } else if ends_line(buf, from) {
        Some(from)
    } else {
        line_end(buf, from + 1)
    }
}

/// The text between a frame's tag and the end of its line, as UTF-8 bytes,
/// and the length of the tag, the text and the line's end together.
pub open spec fn line_of(buf: Seq<u8>) -> Result<(Seq<u8>, int), Fault> {
    match line_end(buf, 1) {
        None => Err(Fault::Incomplete),
        Some(i) => {
            let line = buf.subrange(1, i);
            if valid_utf8(line) {
                Ok((line, i + 2))
            } else {
                Err(Fault::Malformed("not valid UTF-8"@))
            }
        },
    }
}

/// The number on a frame's line and the length of tag and line together; a
/// line that holds no number is malformed, with `complaint` for a message.
pub open spec fn number_of(buf: Seq<u8>, complaint: Seq<char>) -> Result<(i64, int), Fault> {
    match line_of(buf) {
        Err(fault) => Err(fault),
        Ok((line, n)) => match i64_of(line) {
            Some(v) => Ok((v, n)),
            None => Err(Fault::Malformed(complaint)),
        },
    }
}

/// The bulk string of `len` bytes whose header takes `at` bytes of `buf`.
pub open spec fn bulk_body(buf: Seq<u8>, at: int, len: int) -> Result<(Frame, int), Fault> {
    let end = at + len;
    if buf.len() < end + 2 {
        Err(Fault::Incomplete)
    } else if !ends_line(buf, end) {
        Err(Fault::Malformed("bulk string not CRLF-terminated"@))
    } else {
        Ok((Frame::Bulk(Some(buf.subrange(at, end))), end + 2))
    }
}

/// The frame at the front of `buf` and the number of bytes that it takes, or
/// what is wrong with those bytes.
pub open spec fn parse(buf: Seq<u8>) -> Result<(Frame, int), Fault>
    decreases buf.len(), 0int,
{
    proof {
        lemma_line_end_bounds(buf, 1);
    }
    if buf.len() == 0 {
        Err(Fault::Incomplete)
    } else if buf[0] == PLUS {
        match line_of(buf) {
            Ok((line, n)) => Ok((Frame::Simple(decode_utf8(line)), n)),
            Err(fault) => Err(fault),
        }
    } else if buf[0] == MINUS {
        match line_of(buf) {
            Ok((line, n)) => Ok((Frame::Error(decode_utf8(line)), n)),
            Err(fault) => Err(fault),
        }
    } else if buf[0] == COLON {
        match number_of(buf, "invalid integer"@) {
            Ok((v, n)) => Ok((Frame::Integer(v), n)),
            Err(fault) => Err(fault),
        }
    } else if buf[0] == DOLLAR {
        match number_of(buf, "invalid bulk length"@) {
            Ok((len, n)) => if len < 0 {
                Ok((Frame::Bulk(None), n))
            } else {
                bulk_body(buf, n, len as int)
            },
            Err(fault) => Err(fault),
        }
    } else if buf[0] == STAR {
        match number_of(buf, "invalid array length"@) {
            Ok((len, n)) => if len < 0 {
                Ok((Frame::Array(None), n))
            } else {
                match parse_items(buf.skip(n), len as int) {
                    Ok((items, m)) => Ok((Frame::Array(Some(items)), n + m)),
                    Err(fault) => Err(fault),
                }
            },
            Err(fault) => Err(fault),
        }
    } else {
        Err(Fault::Malformed("unknown type tag '"@ + seq![buf[0] as char] + "'"@))
    }
}

/// The `count` frames at the front of `buf` and the number of bytes that they
/// take, or what is wrong with the first of them that is not there.
pub open spec fn parse_items(buf: Seq<u8>, count: int) -> Result<(Seq<Frame>, int), Fault>
    decreases buf.len(), 1int,
{
    if count <= 0 {
        Ok((Seq::empty(), 0))
    } else {
        match parse(buf) {
            Err(fault) => Err(fault),
            // A frame takes at least one byte, and none beyond the buffer.
            Ok((first, n)) => if 0 < n <= buf.len() {
                match parse_items(buf.skip(n), count - 1) {
                    Ok((rest, m)) => Ok((seq![first] + rest, n + m)),
                    Err(fault) => Err(fault),
                }
            } else {
                Err(Fault::Incomplete)
            },
        }
    }
}

/// A line ends where its end stands, at or after the place where the search
/// begins, and nowhere before.
pub proof fn lemma_line_end_bounds(buf: Seq<u8>, from: int)
    requires
        0 <= from,
    ensures
        line_end(buf, from) matches Some(i) ==> from <= i && ends_line(buf, i),
        line_end(buf, from) matches Some(i) ==> forall|j: int|
            from <= j < i ==> !#[trigger] ends_line(buf, j),
        line_end(buf, from) is None ==> forall|j: int| from <= j ==> !#[trigger] ends_line(buf, j),
    decreases buf.len() - from,
{
    if from + 1 < buf.len() && !ends_line(buf, from) {
        lemma_line_end_bounds(buf, from + 1);
    }
}

/// Searching a buffer from some place on is searching what follows that place.
proof fn lemma_line_end_skip(buf: Seq<u8>, start: int, from: int)
    requires
        0 <= start <= buf.len(),
        0 <= from,
    ensures
        line_end(buf, start + from) == match line_end(buf.skip(start), from) {
            Some(i) => Some(start + i),
            None => None,
        },
    decreases buf.len() - start - from,
{
    let rest = buf.skip(start);
    if from + 1 < rest.len() {
        if !ends_line(rest, from) {
            lemma_line_end_skip(buf, start, from + 1);
        }
    }
}

/// What [`decode_at`] returns for the bytes from `start` on, with places
/// counted from `start`.
pub open spec fn outcome(r: Result<(Value, usize), ProtocolError>, start: int) -> Result<
    (Frame, int),
    Fault,
> {
    match r {
        Ok((value, end)) => Ok((value@, end - start)),
        Err(err) => Err(err@),
    }
}

/// Parses one [`Value`] from the front of `buf`. Returns the value and the
/// number of bytes it consumed, so callers decoding a stream can advance
/// their buffer by that amount and try again for the next frame.
pub fn decode(buf: &[u8]) -> (r: Result<(Value, usize), ProtocolError>)
    ensures
        outcome(r, 0) == parse(buf@),
        r matches Ok((_, consumed)) ==> 0 < consumed <= buf@.len(),
{
    assert(buf@.skip(0) =~= buf@);
    decode_at(buf, 0)
}

/// Parses one [`Value`] from the bytes of `buf` from `start` on. Returns the
/// value and the place where it ends.
pub(crate) fn decode_at(buf: &[u8], start: usize) -> (r: Result<(Value, usize), ProtocolError>)
    requires
        start <= buf@.len(),
    ensures
        outcome(r, start as int) == parse(buf@.skip(start as int)),
        r matches Ok((_, end)) ==> start < end <= buf@.len(),
    decreases buf@.len() - start,
{
    let ghost rest = buf@.skip(start as int);
    proof {
        lemma_line_end_bounds(rest, 1);
    }
    if start == buf.len() {
        return Err(ProtocolError::Incomplete);
    }
    let tag = buf[start];
    if tag == PLUS {
        match text_at(buf, start) {
            Ok((text, end)) => Ok((Value::Simple(text), end)),
            Err(err) => Err(err),
        }
    } else if tag == MINUS {
        match text_at(buf, start) {
            Ok((text, end)) => Ok((Value::Error(text), end)),
            Err(err) => Err(err),
        }
    } else if tag == COLON {
        match number_at(buf, start, "invalid integer") {
            Ok((n, end)) => Ok((Value::Integer(n), end)),
            Err(err) => Err(err),
        }
    } else if tag == DOLLAR {
        match number_at(buf, start, "invalid bulk length") {
            Ok((len, after_len)) => if len < 0 {
                Ok((Value::Bulk(None), after_len))
            } else {
                bulk_at(buf, start, after_len, len)
            },
            Err(err) => Err(err),
        }
    } else if tag == STAR {
        let (len, after_len) = match number_at(buf, start, "invalid array length") {
            Ok(found) => found,
            Err(err) => return Err(err),
        };
        if len < 0 {
            return Ok((Value::Array(None), after_len));
        }
        let ghost header = after_len - start;
        let ghost body = buf@.skip(after_len as int);
        assert(rest.skip(header) =~= body);
        let mut items: Vec<Value> = Vec::new();
        let mut pos: usize = after_len;
        let mut i: i64 = 0;
        while i < len
            invariant
                start < after_len <= pos <= buf@.len(),
                0 <= i <= len,
                header == after_len - start,
                parse(buf@.skip(start as int)) == match parse_items(body, len as int) {
                    Ok((found, m)) => Ok((Frame::Array(Some(found)), header + m)),
                    Err(fault) => Err(fault),
                },
                body == buf@.skip(after_len as int),
                parse_items(body, len as int) == prepend(
                    frames_of(items@),
                    pos - after_len,
                    parse_items(buf@.skip(pos as int), len - i),
                ),
            decreases len - i,
        {
            match decode_at(buf, pos) {
                Ok((value, end)) => {
                    proof {
                        assert(buf@.skip(pos as int).skip(end - pos) =~= buf@.skip(end as int));
                        assert(items@.push(value).drop_last() =~= items@);
                        match parse_items(buf@.skip(end as int), len - i - 1) {
                            Ok((found, _)) => {
                                assert(frames_of(items@) + (seq![value@] + found)
                                    =~= frames_of(items@).push(value@) + found);
                            },
                            Err(_) => {},
                        }
                    }
                    items.push(value);
                    pos = end;
                },
                Err(err) => return Err(err),
            }
            i = i + 1;
        }
        Ok((Value::Array(Some(items)), pos))
    } else {
        let mut msg = "unknown type tag '".to_string();
        msg.push(tag as char);
        msg.append("'");
        assert(msg@ =~= "unknown type tag '"@ + seq![tag as char] + "'"@);
        Err(ProtocolError::Malformed(msg))
    }
}

/// `items`, which take `n` bytes, in front of what was parsed after them.
spec fn prepend(
    items: Seq<Frame>,
    n: int,
    parsed: Result<(Seq<Frame>, int), Fault>,
) -> Result<(Seq<Frame>, int), Fault> {
    match parsed {
        Ok((rest, m)) => Ok((items + rest, n + m)),
        Err(fault) => Err(fault),
    }
}

/// The text on the line of the frame that starts at `start`, and the place
/// where the next line starts.
fn text_at(buf: &[u8], start: usize) -> (r: Result<(String, usize), ProtocolError>)
    requires
        start < buf@.len(),
    ensures
        match line_of(buf@.skip(start as int)) {
            Ok((line, n)) => r matches Ok((text, end)) && text@ == decode_utf8(line) && end == start
                + n && end <= buf@.len(),
            Err(fault) => r matches Err(err) && err@ == fault,
        },
{
    let ghost rest = buf@.skip(start as int);
    proof {
        lemma_line_end_skip(buf@, start as int, 1);
        lemma_line_end_bounds(rest, 1);
    }
    assert(start < buf.len());
    match read_line(buf, start + 1) {
        Ok((line, end)) => {
            assert(line@ =~= rest.subrange(1, line_end(rest, 1)->0));
            match to_utf8(line) {
                Ok(text) => Ok((text, end)),
                Err(err) => Err(err),
            }
        },
        Err(err) => Err(err),
    }
}

/// The number on the line of the frame that starts at `start`, and the place
/// where the next line starts.
fn number_at(buf: &[u8], start: usize, complaint: &str) -> (r: Result<(i64, usize), ProtocolError>)
    requires
        start < buf@.len(),
    ensures
        match number_of(buf@.skip(start as int), complaint@) {
            Ok((v, n)) => r matches Ok((found, end)) && found == v && end == start + n && end
                <= buf@.len(),
            Err(fault) => r matches Err(err) && err@ == fault,
        },
{
    match text_at(buf, start) {
        Ok((text, end)) => {
            proof {
                decode_utf8_encode_utf8(line_of(buf@.skip(start as int))->Ok_0.0);
            }
            match read_i64(text.as_str().as_bytes()) {
                Some(v) => Ok((v, end)),
                None => Err(ProtocolError::Malformed(complaint.to_string())),
            }
        },
        Err(err) => Err(err),
    }
}

/// The bulk string of `len` bytes whose frame starts at `start` and whose
/// bytes start at `from`.
fn bulk_at(buf: &[u8], start: usize, from: usize, len: i64) -> (r: Result<
    (Value, usize),
    ProtocolError,
>)
    requires
        start <= from <= buf@.len(),
        0 <= len,
    ensures
        outcome(r, start as int) == bulk_body(buf@.skip(start as int), from - start, len as int),
        r matches Ok((_, end)) ==> from < end <= buf@.len(),
{
    let ghost rest = buf@.skip(start as int);
    let left: usize = buf.len() - from;
    if (len as u64) > left as u64 || left - (len as usize) < 2 {
        return Err(ProtocolError::Incomplete);
    }
    let end: usize = from + len as usize;
    if buf[end] != CR || buf[end + 1] != LF {
        return Err(ProtocolError::Malformed("bulk string not CRLF-terminated".to_string()));
    }
    let bytes = slice_to_vec(slice_subrange(buf, from, end));
    assert(bytes@ =~= rest.subrange(from - start, end - start));
    Ok((Value::Bulk(Some(bytes)), end + 2))
}

/// The bytes of `buf` from `start` to the end of the line, and the place
/// where the next line starts.
fn read_line(buf: &[u8], start: usize) -> (r: Result<(&[u8], usize), ProtocolError>)
    ensures
        match line_end(buf@, start as int) {
            Some(i) => r matches Ok((line, next)) && line@ == buf@.subrange(start as int, i)
                && next == i + 2,
            None => r == Err::<(&[u8], usize), ProtocolError>(ProtocolError::Incomplete),
        },
{
    let mut i: usize = start;
    while i < buf.len() && buf.len() - i > 1
        invariant
            start <= i,
            line_end(buf@, start as int) == line_end(buf@, i as int),
        decreases buf@.len() - i,
    {
        if buf[i] == CR && buf[i + 1] == LF {
            return Ok((slice_subrange(buf, start, i), i + 2));
        }
        i = i + 1;
    }
    Err(ProtocolError::Incomplete)
}

/// The text that `bytes` encode.
fn to_utf8(bytes: &[u8]) -> (r: Result<String, ProtocolError>)
    ensures
        match r {
            Ok(text) => valid_utf8(bytes@) && text@ == decode_utf8(bytes@),
            Err(err) => !valid_utf8(bytes@) && err@ == Fault::Malformed("not valid UTF-8"@),
        },
{
    match core::str::from_utf8(bytes) {
        Ok(text) => Ok(text.to_string()),
        Err(_) => Err(ProtocolError::Malformed("not valid UTF-8".to_string())),
    }
}

} // verus!
