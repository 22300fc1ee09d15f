//! What holds of a connection as a whole: requests are answered in the order
//! in which they were sent, however their bytes arrive, and the client gets
//! the answers.
use crate::aof::loggable;
use crate::aof_laws::{law_a_loggable_order_is_sendable, log_of};
use crate::command::{arguments_of, read_request, request_of, Command, Order};
use crate::command_laws::{
    law_request_is_read_back, law_what_was_read_is_expressible, rounded,
};
use crate::duration::on_clock;
use crate::exec::{after, reply, writes};
use crate::protocol::{parse, wire, Fault, Frame, Value};
use crate::protocol_laws::{
    breaks_line, law_a_cut_frame_is_incomplete, law_frame_lies_in_the_buffer,
    law_what_follows_does_not_matter, law_what_is_received_can_be_sent,
    law_what_is_sent_is_received, lemma_each_can_be_sent,
};
use crate::session::{
    complaint_reply, items_after, left_of, receipt, service, step, Served, Service, Step,
};
use crate::store::{present, Items};
use crate::store_laws::same_at;
use crate::table::live;
use vstd::prelude::*;

verus! {

/// A request that was sent is run, whatever follows it, and what follows it is
/// left for the next.
pub proof fn law_a_request_is_run(order: Order, rest: Seq<u8>)
    requires
        loggable(order),
    ensures
        ({
            let sent = wire(request_of(order));
            &&& step(sent + rest) == Step::Run(rounded(order), sent.len() as int)
            &&& left_of(sent + rest) == rest
        }),
{
    law_a_loggable_order_is_sendable(order);
    law_what_is_sent_is_received(request_of(order), rest);
    law_request_is_read_back(order);
}

/// What is left of a buffer after a number of requests were served.
pub open spec fn left_after(buf: Seq<u8>, count: nat) -> Seq<u8>
    decreases count,
{
    if count == 0 {
        buf
    } else {
        left_of(left_after(buf, (count - 1) as nat))
    }
}

/// Requests that were sent one after the other on a connection are run in that
/// order, each once, and what follows them is left.
#[verifier::rlimit(60)]
#[verifier::spinoff_prover]
pub proof fn law_requests_are_run_in_order(orders: Seq<Order>, rest: Seq<u8>, count: nat)
    requires
        forall|i: int| 0 <= i < orders.len() ==> loggable(#[trigger] orders[i]),
        count <= orders.len(),
    ensures
        ({
            let left = left_after(log_of(orders) + rest, count);
            &&& left == log_of(orders.skip(count as int)) + rest
            &&& count < orders.len() ==> step(left) == Step::Run(
                rounded(orders[count as int]),
                wire(request_of(orders[count as int])).len() as int,
            )
        }),
    decreases count,
{
    let left = log_of(orders.skip(count as int)) + rest;
    if count == 0 {
        assert(orders.skip(0) =~= orders);
    } else {
        let before = (count - 1) as nat;
        law_requests_are_run_in_order(orders, rest, before);
        let pending = orders.skip(before as int);
        assert(pending.drop_first() =~= orders.skip(count as int));
        assert(loggable(orders[before as int]));
        assert(log_of(pending) + rest =~= wire(request_of(pending[0])) + left);
        law_a_request_is_run(pending[0], left);
    }
    if count < orders.len() {
        let pending = orders.skip(count as int);
        let more = log_of(pending.drop_first()) + rest;
        assert(loggable(orders[count as int]));
        assert(left =~= wire(request_of(pending[0])) + more);
        law_a_request_is_run(pending[0], more);
    }
}

/// A request of which only a part has arrived, however much that is, waits for
/// the rest, and nothing of it is lost.
pub proof fn law_a_part_of_a_request_waits(order: Order, n: int)
    requires
        loggable(order),
        0 <= n < wire(request_of(order)).len(),
    ensures
        ({
            let part = wire(request_of(order)).take(n);
            step(part) == Step::Wait && left_of(part) == part
        }),
{
    law_a_loggable_order_is_sendable(order);
    law_a_cut_frame_is_incomplete(request_of(order), n);
}

/// What a buffer calls for does not change as more bytes arrive behind it.
pub proof fn law_later_bytes_do_not_matter(buf: Seq<u8>, more: Seq<u8>)
    requires
        step(buf) != Step::Wait,
    ensures
        step(buf + more) == step(buf),
        step(buf) is Run || step(buf) is Refuse ==> left_of(buf + more) == left_of(buf) + more,
{
    law_what_follows_does_not_matter(buf, more);
    law_frame_lies_in_the_buffer(buf);
}

/// A request that is served takes bytes off the buffer: serving one after the
/// other comes to an end.
pub proof fn law_serving_makes_progress(buf: Seq<u8>)
    requires
        step(buf) != Step::Wait,
    ensures
        left_of(buf).len() < buf.len(),
{
    law_frame_lies_in_the_buffer(buf);
}

/// The reply to a command reaches the client as it was sent.
pub proof fn law_a_reply_is_received(items: Items, order: Order, now: nat, rest: Seq<u8>)
    requires
        order matches Order::Get { key } ==> present(items, key, now) ==> items[key].value.len()
            <= i64::MAX,
    ensures
        receipt(wire(reply(items, order, now)) + rest) == Ok::<Option<Frame>, Seq<char>>(
            Some(reply(items, order, now)),
        ),
{
    reveal_strlit("PONG");
    reveal_strlit("OK");
    law_what_is_sent_is_received(reply(items, order, now), rest);
}

/// A client that sends a command to a server gets the reply to that command.
pub proof fn law_a_call_gets_its_reply(items: Items, order: Order, now: nat)
    requires
        loggable(order),
        order matches Order::Get { key } ==> present(items, key, now) ==> items[key].value.len()
            <= i64::MAX,
    ensures
        service(wire(request_of(order)), items, now) matches Some(served) && receipt(
            wire(served.response),
        ) == Ok::<Option<Frame>, Seq<char>>(Some(reply(items, rounded(order), now))),
{
    let (sent, nothing) = (wire(request_of(order)), Seq::<u8>::empty());
    law_a_request_is_run(order, nothing);
    law_a_reply_is_received(items, rounded(order), now, nothing);
}

/// The report of an error reaches the client as it was sent.
pub proof fn law_an_error_is_received(complaint: Seq<char>, rest: Seq<u8>)
    requires
        !breaks_line("ERR "@ + complaint),
    ensures
        receipt(wire(complaint_reply(complaint)) + rest) == Ok::<Option<Frame>, Seq<char>>(
            Some(complaint_reply(complaint)),
        ),
{
    law_what_is_sent_is_received(complaint_reply(complaint), rest);
}

/// A request that is run can be logged, and what is replayed of its entry is the
/// very order that was run: what holds of the log holds of all that a server
/// runs.
pub proof fn law_what_is_run_can_be_logged(buf: Seq<u8>)
    ensures
        step(buf) matches Step::Run(order, _) ==> loggable(order) && rounded(order) == order,
{
    if let Step::Run(order, n) = step(buf) {
        law_what_is_received_can_be_sent(buf);
        let frame = parse(buf)->Ok_0.0;
        let items = frame->Array_0->Some_0;
        let args = arguments_of(items)->Some_0;
        law_what_was_read_is_expressible(args);
        assert forall|i: int| 0 <= i < args.len() implies (#[trigger] args[i]).len()
            <= i64::MAX by {
            lemma_each_can_be_sent(items, i);
        }
    }
}

/// Whatever changes what a later read finds is logged, as it was run, and
/// nothing else is.
pub proof fn law_what_changes_the_store_is_logged(buf: Seq<u8>, items: Items, now: nat, later: nat)
    requires
        now <= later,
    ensures
        match service(buf, items, now) {
            Some(served) => match served.logged {
                Some(order) => {
                    &&& writes(order)
                    &&& items_after(buf, items, now) == after(items, order, now)
                },
                None => live(items_after(buf, items, now), later) == live(items, later),
            },
            None => items_after(buf, items, now) == items,
        },
{
}

/// What a buffer calls for, one request after the other, until it calls for
/// nothing more or the connection is closed.
pub open spec fn steps_of(buf: Seq<u8>) -> Seq<Step>
    decreases buf.len(),
{
    match step(buf) {
        Step::Wait => Seq::empty(),
        Step::Break(complaint) => seq![Step::Break(complaint)],
        next => {
            proof {
                law_serving_makes_progress(buf);
            }
            seq![next] + steps_of(left_of(buf))
        },
    }
}

/// What is left of a buffer when it calls for nothing more.
pub open spec fn left_when_served(buf: Seq<u8>) -> Seq<u8>
    decreases buf.len(),
{
    match step(buf) {
        Step::Wait => buf,
        Step::Break(_) => Seq::empty(),
        _ => {
            proof {
                law_serving_makes_progress(buf);
            }
            left_when_served(left_of(buf))
        },
    }
}

/// Whether the connection is closed over what a buffer holds.
pub open spec fn closes(buf: Seq<u8>) -> bool {
    steps_of(buf).len() > 0 && steps_of(buf).last() is Break
}

/// It does not matter how the bytes of a connection are cut as they arrive:
/// serving a part of them, and the rest when it is there, is serving them all.
/// After the connection was closed, nothing more is served.
pub proof fn law_how_bytes_arrive_does_not_matter(first: Seq<u8>, more: Seq<u8>)
    ensures
        steps_of(first + more) == if closes(first) {
            steps_of(first)
        } else {
            steps_of(first) + steps_of(left_when_served(first) + more)
        },
    decreases first.len(),
{
    let all = first + more;
    match step(first) {
        Step::Wait => {
            assert(steps_of(first) + steps_of(all) =~= steps_of(all));
        },
        Step::Break(complaint) => {
            law_later_bytes_do_not_matter(first, more);
        },
        next => {
            law_later_bytes_do_not_matter(first, more);
            law_serving_makes_progress(first);
            let left = left_of(first);
            law_how_bytes_arrive_does_not_matter(left, more);
            assert(steps_of(first) == seq![next] + steps_of(left));
            assert(steps_of(all) == seq![next] + steps_of(left + more));
            assert(closes(first) == closes(left));
            if !closes(left) {
                let rest = steps_of(left_when_served(left) + more);
                assert(seq![next] + (steps_of(left) + rest) =~= seq![next] + steps_of(left) + rest);
            }
        },
    }
}

/// What a server does with what is at the front of its buffer: it runs a
/// command, and logs it where it writes; it refuses a frame that is none; it
/// refuses bytes that are no frame, and closes; it waits for the rest of a frame
/// otherwise.
pub proof fn law_how_requests_are_served(buf: Seq<u8>, items: Items, now: nat)
    ensures
        match parse(buf) {
            Ok((frame, n)) => {
                &&& service(buf, items, now) matches Some(served)
                &&& !served.close
                &&& left_of(buf) == buf.skip(n)
                &&& match read_request(frame) {
                    Ok(order) => {
                        &&& served.response == reply(items, order, now)
                        &&& items_after(buf, items, now) == after(items, order, now)
                        &&& writes(order) ==> served.logged == Some(order)
                        &&& !writes(order) ==> served.logged is None
                        &&& step(buf) == Step::Run(order, n)
                    },
                    Err(complaint) => {
                        &&& served.response == Frame::Error("ERR "@ + complaint)
                        &&& items_after(buf, items, now) == items
                        &&& served.logged is None
                        &&& step(buf) == Step::Refuse(complaint, n)
                    },
                }
            },
            Err(Fault::Malformed(complaint)) => {
                &&& service(buf, items, now) matches Some(served)
                &&& served.close
                &&& served.response == Frame::Error("ERR "@ + complaint)
                &&& served.logged is None
                &&& left_of(buf) == Seq::<u8>::empty()
                &&& items_after(buf, items, now) == items
                &&& step(buf) == Step::Break(complaint)
            },
            Err(Fault::Incomplete) => {
                &&& service(buf, items, now) is None
                &&& left_of(buf) == buf
                &&& items_after(buf, items, now) == items
                &&& step(buf) == Step::Wait
            },
        },
{
}

/// What a client makes of what it has received: the reply at the front of it, or
/// the complaint on what can never be one, or nothing yet.
pub proof fn law_how_replies_are_taken(buf: Seq<u8>)
    ensures
        receipt(buf) == match parse(buf) {
            Ok((frame, _)) => Ok::<Option<Frame>, Seq<char>>(Some(frame)),
            Err(Fault::Malformed(complaint)) => Err(complaint),
            Err(Fault::Incomplete) => Ok(None),
        },
{
}

/// What was served holds what it was made of.
pub proof fn law_what_was_served_holds_what_it_was_made_of(
    response: Value,
    command: Command,
    close: bool,
)
    ensures
        (Served { response, logged: Some(command), close })@ == (Service {
            response: response@,
            logged: Some(command@),
            close,
        }),
        (Served { response, logged: None, close })@ == (Service {
            response: response@,
            logged: None,
            close,
        }),
{
}

/// A key that a request sets with a time to live is found by a request that is
/// served before that has passed on the store's clock, and is gone for one that
/// is served after, whatever was served in between that is not about the key.
pub proof fn law_a_key_that_was_served_expires(
    origin: std::time::Instant,
    set: Seq<u8>,
    get: Seq<u8>,
    items: Items,
    between: Items,
    key: Seq<u8>,
    value: Seq<u8>,
    ttl: nat,
    earlier: nat,
    now: nat,
    later: nat,
)
    requires
        step(set) matches Step::Run(order, _) && order == (Order::Put {
            key,
            value,
            ttl: Some(ttl),
        }),
        step(get) matches Step::Run(order, _) && order == (Order::Get { key }),
        on_clock(origin, earlier, now),
        same_at(items_after(set, items, now), between, key),
    ensures
        earlier <= now,
        service(get, between, later) matches Some(served) && served.response == Frame::Bulk(
            if later < now + ttl {
                Some(value)
            } else {
                None
            },
        ),
{
}

} // verus!
