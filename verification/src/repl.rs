//! What the command-line client makes of its arguments and of each line of an
//! interactive session.
use crate::command::{read_arguments, Command, Order};
use crate::protocol::{lemma_frames_of, Frame, Value};
use crate::text::{ascii_lower, texts};
use crate::tokenize::{chars_of, is_whitespace, tokenize, whitespace, words};
use vstd::prelude::*;
use vstd::slice::slice_to_vec;
use vstd::utf8::encode_utf8;

verus! {

/// The bytes of each of several texts.
pub open spec fn encoded(texts: Seq<Seq<char>>) -> Seq<Seq<u8>> {
    Seq::new(texts.len(), |i: int| encode_utf8(texts[i]))
}

/// Builds a `Command` from raw string tokens by routing them through the same
/// request parser the server uses, so the client and the server can never
/// disagree about what a command means.
pub fn command_from_args(args: &[String]) -> (r: Result<Command, String>)
    ensures
        (match r {
            Ok(command) => Ok(command@),
            Err(msg) => Err(msg@),
        }) == read_arguments(encoded(texts(args@))),
{
    let mut parts: Vec<Value> = Vec::new();
    let mut i: usize = 0;
    while i < args.len()
        invariant
            i <= args@.len(),
            parts@.len() == i,
            forall|k: int|
                0 <= k < i ==> #[trigger] parts@[k]@ == Frame::Bulk(Some(encode_utf8(args@[k]@))),
        decreases args@.len() - i,
    {
        parts.push(Value::bulk(slice_to_vec(args[i].as_str().as_bytes())));
        i = i + 1;
    }
    proof {
        lemma_frames_of(parts@);
    }
    let request = Value::array(parts);
    match Command::from_request(&request) {
        Ok(command) => Ok(command),
        Err(err) => Err(err.message()),
    }
}

/// A text without the whitespace at its front.
pub open spec fn trim_front(text: Seq<char>) -> Seq<char>
    decreases text.len(),
{
    if text.len() > 0 && whitespace(text[0]) {
        trim_front(text.drop_first())
    } else {
        text
    }
}

/// A text without the whitespace at its end.
pub open spec fn trim_end(text: Seq<char>) -> Seq<char>
    decreases text.len(),
{
    if text.len() > 0 && whitespace(text.last()) {
        trim_end(text.drop_last())
    } else {
        text
    }
}

/// A text without the whitespace around it.
pub open spec fn trimmed(text: Seq<char>) -> Seq<char> {
    trim_end(trim_front(text))
}

/// A text without the whitespace around it.
pub fn trim(text: &str) -> (r: String)
    ensures
        r@ == trimmed(text@),
{
    let chars = chars_of(text);
    let mut start: usize = 0;
    assert(chars@.skip(0) =~= chars@);
    while start < chars.len() && is_whitespace(chars[start])
        invariant
            start <= chars@.len(),
            trim_front(chars@) == trim_front(chars@.skip(start as int)),
        decreases chars@.len() - start,
    {
        assert(chars@.skip(start as int).drop_first() =~= chars@.skip(start + 1));
        start = start + 1;
    }
    let mut end: usize = chars.len();
    while start < end && is_whitespace(chars[end - 1])
        invariant
            start <= end <= chars@.len(),
            trimmed(chars@) == trim_end(chars@.subrange(start as int, end as int)),
        decreases end - start,
    {
        assert(chars@.subrange(start as int, end as int).drop_last() =~= chars@.subrange(
            start as int,
            end - 1,
        ));
        end = end - 1;
    }
    let mut out = String::new();
    let mut i: usize = start;
    while i < end
        invariant
            start <= i <= end <= chars@.len(),
            out@ == chars@.subrange(start as int, i as int),
        decreases end - i,
    {
        out.push(chars[i]);
        i = i + 1;
    }
    out
}

/// What to do about a line of an interactive session.
pub enum Action {
    /// Nothing.
    Skip,
    /// End the session.
    Quit,
    /// Report an error to the user.
    Report(String),
    /// Send a command.
    Call(Command),
}

/// What an [`Action`] is, as a mathematical value.
pub enum Plan {
    Skip,
    Quit,
    Report(Seq<char>),
    Call(Order),
}

impl View for Action {
    type V = Plan;

    open spec fn view(&self) -> Plan {
        match self {
            Action::Skip => Plan::Skip,
            Action::Quit => Plan::Quit,
            Action::Report(msg) => Plan::Report(msg@),
            Action::Call(command) => Plan::Call(command@),
        }
    }
}

/// What to do about a line of an interactive session.
pub open spec fn plan(line: Seq<char>) -> Plan {
    let line = trimmed(line);
    if line.len() == 0 {
        Plan::Skip
    } else if ascii_lower(line) == "quit"@ || ascii_lower(line) == "exit"@ {
        Plan::Quit
    } else {
        match words(line) {
            None => Plan::Report("unterminated quote"@),
            Some(args) => match read_arguments(encoded(args)) {
                Err(complaint) => Plan::Report(complaint),
                Ok(order) => Plan::Call(order),
            },
        }
    }
}

/// What to do about a line of an interactive session.
pub fn action_for(line: &str) -> (r: Action)
    ensures
        r@ == plan(line@),
{
    let line = trim(line);
    if line.as_str().is_empty() {
        return Action::Skip;
    }
    let lower = line.as_str().to_ascii_lowercase();
    if lower == "quit".to_string() || lower == "exit".to_string() {
        return Action::Quit;
    }
    match tokenize(line.as_str()) {
        Err(msg) => Action::Report(msg),
        Ok(tokens) => match command_from_args(tokens.as_slice()) {
            Err(msg) => Action::Report(msg),
            Ok(command) => Action::Call(command),
        },
    }
}

} // verus!
