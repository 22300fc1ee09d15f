//! Formats a protocol `Value` the way redis-cli formats its responses, so
//! anyone who's used `redis-cli` can read the output at a glance.
use crate::number::{decimal, push_decimal, push_signed_decimal, signed_decimal};
use crate::protocol::{frames_of, lemma_frames_of, lemma_item_is_smaller, Frame, Value};
use crate::text::{debug, debug_text, lossy, text_of, texts};
use vstd::prelude::*;

verus! {

/// The characters with the given ASCII codes.
pub open spec fn ascii_text(bytes: Seq<u8>) -> Seq<char> {
    bytes.map_values(|b: u8| b as char)
}

/// A number as text.
pub open spec fn number_text(n: int) -> Seq<char> {
    ascii_text(signed_decimal(n))
}

/// A number of spaces.
pub open spec fn spaces(count: nat) -> Seq<char> {
    Seq::new(count, |i: int| ' ')
}

/// The number of digits of a number.
pub open spec fn digits_of(n: nat) -> nat {
    decimal(n).len()
}

/// A number as text, with spaces before it where it is shorter than `width`.
pub open spec fn aligned(number: nat, width: nat) -> Seq<char> {
    let text = number_text(number as int);
    if text.len() < width {
        spaces((width - text.len()) as nat) + text
    } else {
        text
    }
}

/// One line of a numbered list, whose number takes `width` places.
pub open spec fn numbered_line(
    margin: Seq<char>,
    width: nat,
    number: nat,
    text: Seq<char>,
) -> Seq<char> {
    margin + aligned(number, width) + ") "@ + text
}

/// The lines of a numbered list, counted from one, whose numbers take `width`
/// places. The first line has no margin: it stands where the list does, behind
/// the number of the list in an outer list, if there is one.
pub open spec fn numbered_lines(margin: Seq<char>, width: nat, texts: Seq<Seq<char>>) -> Seq<char>
    decreases texts.len(),
{
    if texts.len() == 0 {
        Seq::empty()
    } else if texts.len() == 1 {
        numbered_line(Seq::empty(), width, 1, texts[0])
    } else {
        numbered_lines(margin, width, texts.drop_last()) + "\n"@ + numbered_line(
            margin,
            width,
            texts.len(),
            texts.last(),
        )
    }
}

/// A numbered list with a line for each text, and the numbers aligned to the
/// right.
pub open spec fn numbered(margin: Seq<char>, texts: Seq<Seq<char>>) -> Seq<char> {
    numbered_lines(margin, digits_of(texts.len()), texts)
}

/// The text that shows a frame, where the lines of a list in it but the first
/// have the given margin. A list in that list has a margin that is wider by
/// what stands before its first line: the number, and two characters more.
pub open spec fn shown(frame: Frame, margin: Seq<char>) -> Seq<char>
    decreases frame,
{
    match frame {
        Frame::Simple(s) => s,
        Frame::Error(e) => "(error) "@ + e,
        Frame::Integer(n) => "(integer) "@ + number_text(n as int),
        Frame::Bulk(None) => "(nil)"@,
        Frame::Bulk(Some(bytes)) => debug_text(text_of(bytes)),
        Frame::Array(None) => "(nil)"@,
        Frame::Array(Some(items)) => if items.len() == 0 {
            "(empty array)"@
        } else {
            numbered(margin, shown_all(items, margin + spaces(digits_of(items.len()) + 2)))
        },
    }
}

/// The text that shows each of several frames.
pub open spec fn shown_all(frames: Seq<Frame>, margin: Seq<char>) -> Seq<Seq<char>>
    decreases frames,
{
    if frames.len() == 0 {
        Seq::empty()
    } else {
        shown_all(frames.drop_last(), margin).push(shown(frames.last(), margin))
    }
}

/// Writes ASCII characters at the end of `out`.
fn push_ascii(out: &mut String, bytes: &Vec<u8>)
    ensures
        final(out)@ == old(out)@ + ascii_text(bytes@),
{
    let mut i: usize = 0;
    while i < bytes.len()
        invariant
            i <= bytes@.len(),
            out@ == old(out)@ + ascii_text(bytes@.take(i as int)),
        decreases bytes@.len() - i,
    {
        out.push(bytes[i] as char);
        i = i + 1;
    }
}

/// Writes spaces at the end of `out`.
fn push_spaces(out: &mut String, count: usize)
    ensures
        final(out)@ == old(out)@ + spaces(count as nat),
{
    let mut i: usize = 0;
    while i < count
        invariant
            i <= count,
            out@ == old(out)@ + spaces(i as nat),
        decreases count - i,
    {
        out.push(' ');
        i = i + 1;
    }
}

/// Writes a number at the end of `out`, with spaces before it where it is
/// shorter than `width`.
fn push_aligned(out: &mut String, number: u128, width: usize)
    ensures
        final(out)@ == old(out)@ + aligned(number as nat, width as nat),
{
    let mut digits: Vec<u8> = Vec::new();
    push_decimal(&mut digits, number);
    assert(digits@ =~= decimal(number as nat));
    if digits.len() < width {
        push_spaces(out, width - digits.len());
    }
    push_ascii(out, &digits);
}

/// The number of digits of a number.
fn count_digits(n: usize) -> (r: usize)
    ensures
        r == digits_of(n as nat),
{
    let mut digits: Vec<u8> = Vec::new();
    push_decimal(&mut digits, n as u128);
    assert(digits@ =~= decimal(n as nat));
    digits.len()
}

/// A numbered list with a line for each text, where the lines but the first
/// have the given margin.
pub fn number_lines(margin: &str, lines: &Vec<String>) -> (r: String)
    ensures
        r@ == numbered(margin@, texts(lines@)),
{
    let ghost all = texts(lines@);
    let width: usize = count_digits(lines.len());
    let mut out = String::new();
    let mut i: usize = 0;
    while i < lines.len()
        invariant
            i <= lines@.len(),
            all == texts(lines@),
            out@ == numbered_lines(margin@, width as nat, all.take(i as int)),
        decreases lines@.len() - i,
    {
        let ghost before = out@;
        if i > 0 {
            out.append("\n");
            out.append(margin);
        }
        push_aligned(&mut out, i as u128 + 1, width);
        out.append(") ");
        out.append(lines[i].as_str());
        proof {
            let longer = all.take(i + 1);
            assert(longer.drop_last() =~= all.take(i as int));
            if i > 0 {
                assert(out@ =~= before + "\n"@ + numbered_line(
                    margin@,
                    width as nat,
                    longer.len(),
                    longer.last(),
                ));
            }
        }
        i = i + 1;
    }
    assert(all.take(i as int) =~= all);
    out
}

/// The text that shows a value.
pub fn format_value(value: &Value) -> (r: String)
    ensures
        r@ == shown(value@, Seq::empty()),
{
    let margin = String::new();
    format_at(value, margin.as_str())
}

/// The text that shows a value, where the lines of a list in it but the first
/// have the given margin.
pub fn format_at(value: &Value, margin: &str) -> (r: String)
    ensures
        r@ == shown(value@, margin@),
    decreases value,
{
    match value {
        Value::Simple(s) => s.clone(),
        Value::Error(e) => {
            let mut out = "(error) ".to_string();
            out.append(e.as_str());
            out
        },
        Value::Integer(n) => {
            let mut out = "(integer) ".to_string();
            let mut digits: Vec<u8> = Vec::new();
            push_signed_decimal(&mut digits, *n);
            push_ascii(&mut out, &digits);
            out
        },
        Value::Bulk(None) => "(nil)".to_string(),
        Value::Bulk(Some(bytes)) => debug(lossy(bytes.as_slice()).as_str()),
        Value::Array(None) => "(nil)".to_string(),
        Value::Array(Some(items)) => {
            proof {
                lemma_frames_of(items@);
            }
            if items.len() == 0 {
                return "(empty array)".to_string();
            }
            let ghost frames = frames_of(items@);
            let mut inner = margin.to_string();
            push_spaces(&mut inner, count_digits(items.len()));
            push_spaces(&mut inner, 2);
            assert(inner@ =~= margin@ + spaces(digits_of(items@.len()) + 2));
            let mut lines: Vec<String> = Vec::new();
            let mut i: usize = 0;
            while i < items.len()
                invariant
                    i <= items@.len(),
                    *value == Value::Array(Some(*items)),
                    frames == Seq::new(items@.len(), |k: int| items@[k]@),
                    inner@ == margin@ + spaces(digits_of(items@.len()) + 2),
                    texts(lines@) == shown_all(frames.take(i as int), inner@),
                decreases items@.len() - i,
            {
                proof {
                    lemma_item_is_smaller(*value, *items, i as int);
                }
                let line = format_at(&items[i], inner.as_str());
                lines.push(line);
                proof {
                    let longer = frames.take(i + 1);
                    assert(longer.drop_last() =~= frames.take(i as int));
                }
                i = i + 1;
            }
            assert(frames.take(i as int) =~= frames);
            number_lines(margin, &lines)
        },
    }
}

} // verus!
