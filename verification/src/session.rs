//! What a server does with the bytes of a connection, and a client with the
//! bytes of its replies: everything but the reading and writing.
use crate::command::{read_request, Command, Order};
use crate::duration::{on_clock, Duration};
use crate::exec::{after, execute_at, is_write, reply, writes};
use crate::protocol::{decode, parse, Fault, Frame, ProtocolError, Value};
use crate::store::{Items, Store};
use vstd::prelude::*;

verus! {

/// What the front of a buffer calls for, with the number of bytes it takes.
pub enum Step {
    /// The buffer doesn't yet hold a complete frame.
    Wait,
    /// The frame is a command.
    Run(Order, int),
    /// The frame is no command, for the given reason.
    Refuse(Seq<char>, int),
    /// The bytes are no frame, for the given reason.
    Break(Seq<char>),
}

/// What the front of a buffer calls for.
pub open spec fn step(buf: Seq<u8>) -> Step {
    match parse(buf) {
        Ok((frame, n)) => match read_request(frame) {
            Ok(order) => Step::Run(order, n),
            Err(complaint) => Step::Refuse(complaint, n),
        },
        Err(Fault::Incomplete) => Step::Wait,
        Err(Fault::Malformed(complaint)) => Step::Break(complaint),
    }
}

/// The reply that reports an error.
pub open spec fn complaint_reply(complaint: Seq<char>) -> Frame {
    Frame::Error("ERR "@ + complaint)
}

/// The reply that reports an error.
fn error_reply(complaint: &str) -> (r: Value)
    ensures
        r@ == complaint_reply(complaint@),
{
    let mut msg = "ERR ".to_string();
    msg.append(complaint);
    Value::error(msg)
}

/// What a server does after one request.
pub struct Served {
    /// The response to send.
    pub response: Value,
    /// The command to append to the log, if there is one.
    pub logged: Option<Command>,
    /// Whether to close the connection once the response is sent.
    pub close: bool,
}

/// What a [`Served`] holds, as a mathematical value.
pub struct Service {
    pub response: Frame,
    pub logged: Option<Order>,
    pub close: bool,
}

impl View for Served {
    type V = Service;

    open spec fn view(&self) -> Service {
        Service {
            response: self.response@,
            logged: match self.logged {
                Some(command) => Some(command@),
                None => None,
            },
            close: self.close,
        }
    }
}

/// What is done after a request from the front of a buffer was served at the
/// time `now`: a command that writes is logged, and after bytes that are no
/// frame the connection is closed.
pub open spec fn service(buf: Seq<u8>, items: Items, now: nat) -> Option<Service> {
    match step(buf) {
        Step::Wait => None,
        Step::Run(order, _) => Some(
            Service {
                response: reply(items, order, now),
                logged: if writes(order) {
                    Some(order)
                } else {
                    None
                },
                close: false,
            },
        ),
        Step::Refuse(complaint, _) => Some(
            Service { response: complaint_reply(complaint), logged: None, close: false },
        ),
        Step::Break(complaint) => Some(
            Service { response: complaint_reply(complaint), logged: None, close: true },
        ),
    }
}

/// The items after a request from the front of a buffer was served.
pub open spec fn items_after(buf: Seq<u8>, items: Items, now: nat) -> Items {
    match step(buf) {
        Step::Run(order, _) => after(items, order, now),
        _ => items,
    }
}

/// What is left of a buffer after a request from its front was served.
pub open spec fn left_of(buf: Seq<u8>) -> Seq<u8> {
    match step(buf) {
        Step::Wait => buf,
        Step::Run(_, n) => buf.skip(n),
        Step::Refuse(_, n) => buf.skip(n),
        Step::Break(_) => Seq::empty(),
    }
}

/// Takes bytes off the front of a buffer.
fn take_front(buf: &mut Vec<u8>, n: usize)
    requires
        n <= old(buf)@.len(),
    ensures
        final(buf)@ == old(buf)@.skip(n as int),
{
    let rest = buf.split_off(n);
    *buf = rest;
}

/// Serves one request from the front of `buf` as of the time `now` on the
/// store's clock. Returns `None` when `buf` doesn't yet hold a complete frame.
pub fn serve_one_at(buf: &mut Vec<u8>, store: &mut Store, now: Duration) -> (r: Option<Served>)
    ensures
        final(store).clock() == old(store).clock(),
        final(store).time() == old(store).time(),
        (match r {
            Some(served) => Some(served@),
            None => None,
        }) == service(old(buf)@, old(store)@, now@),
        final(buf)@ == left_of(old(buf)@),
        final(store)@ == items_after(old(buf)@, old(store)@, now@),
{
    match decode(buf.as_slice()) {
        Ok((value, consumed)) => {
            take_front(buf, consumed);
            match Command::from_request(&value) {
                Ok(command) => {
                    let response = execute_at(store, &command, now);
                    let logged = if is_write(&command) {
                        Some(command)
                    } else {
                        None
                    };
                    Some(Served { response, logged, close: false })
                },
                Err(err) => {
                    let response = error_reply(err.0.as_str());
                    Some(Served { response, logged: None, close: false })
                },
            }
        },
        Err(ProtocolError::Incomplete) => None,
        Err(ProtocolError::Malformed(msg)) => {
            buf.clear();
            let response = error_reply(msg.as_str());
            Some(Served { response, logged: None, close: true })
        },
    }
}

/// Serves one request from the front of `buf` now. Returns `None` when `buf`
/// doesn't yet hold a complete frame.
pub fn serve_one(buf: &mut Vec<u8>, store: &mut Store) -> (r: Option<Served>)
    ensures
        final(store).clock() == old(store).clock(),
        on_clock(old(store).clock(), old(store).time(), final(store).time()),
        (match r {
            Some(served) => Some(served@),
            None => None,
        }) == service(old(buf)@, old(store)@, final(store).time()),
        final(store)@ == items_after(old(buf)@, old(store)@, final(store).time()),
        final(buf)@ == left_of(old(buf)@),
{
    let now = store.now();
    serve_one_at(buf, store, now)
}

/// Tries to decode and execute one request from the front of `buf`. Returns
/// `None` when `buf` doesn't yet hold a complete frame. A malformed frame
/// produces an error response; the caller is expected to send it and close the
/// connection.
pub fn try_decode_one(buf: &mut Vec<u8>, store: &mut Store) -> (r: Option<Value>)
    ensures
        final(store).clock() == old(store).clock(),
        on_clock(old(store).clock(), old(store).time(), final(store).time()),
        (match r {
            Some(response) => Some(response@),
            None => None,
        }) == (match service(old(buf)@, old(store)@, final(store).time()) {
            Some(served) => Some(served.response),
            None => None,
        }),
        final(store)@ == items_after(old(buf)@, old(store)@, final(store).time()),
        final(buf)@ == left_of(old(buf)@),
{
    match serve_one(buf, store) {
        Some(served) => Some(served.response),
        None => None,
    }
}

/// What a client makes of the bytes that it has received: a reply, or nothing
/// yet, or a complaint where they can never be one.
pub open spec fn receipt(buf: Seq<u8>) -> Result<Option<Frame>, Seq<char>> {
    match parse(buf) {
        Ok((frame, _)) => Ok(Some(frame)),
        Err(Fault::Incomplete) => Ok(None),
        Err(Fault::Malformed(complaint)) => Err(complaint),
    }
}

/// Tries to take one reply off the front of the bytes that a client has
/// received. Returns `Ok(None)` where more bytes are needed, and a complaint
/// where the bytes can never be a reply.
pub fn take_reply(buf: &mut Vec<u8>) -> (r: Result<Option<Value>, String>)
    ensures
        (match r {
            Ok(Some(value)) => Ok(Some(value@)),
            Ok(None) => Ok(None),
            Err(msg) => Err(msg@),
        }) == receipt(old(buf)@),
        final(buf)@ == match parse(old(buf)@) {
            Ok((_, n)) => old(buf)@.skip(n),
            Err(_) => old(buf)@,
        },
{
    match decode(buf.as_slice()) {
        Ok((value, consumed)) => {
            take_front(buf, consumed);
            Ok(Some(value))
        },
        Err(ProtocolError::Incomplete) => Ok(None),
        Err(ProtocolError::Malformed(msg)) => Err(msg),
    }
}

} // verus!
