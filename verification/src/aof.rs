//! Replays an append-only log of write commands to rebuild a [`Store`]'s
//! contents on startup.
//!
//! The log format is deliberately just the wire protocol: each entry is a
//! [`Command`] encoded as a request `Value` (the same bytes a client would
//! send over TCP), one after another. That means a corrupt or truncated tail —
//! the last write cut off mid-append by a crash — decodes as `Incomplete`
//! rather than garbage, so replay can stop cleanly at the last whole command
//! instead of failing the whole file.
use crate::command::{expressible, read_request, request_of, request_parts, Command, Order};
use crate::duration::{last_time, lemma_one_more_time, runs_on_clock};
use crate::exec::{after, execute};
use crate::protocol::{decode_at, parse, wire, Fault, Frame};
use crate::protocol_laws::{
    all_unbroken, law_frame_lies_in_the_buffer, lemma_each_can_be_sent, lemma_lengths_fit, sendable,
    unbroken,
};
use crate::store::{Items, Store};
use vstd::prelude::*;

verus! {

/// Whether an order can be logged: its time to live can be given in a request,
/// and the lengths of its key and value fit in a signed 64-bit number.
pub open spec fn loggable(order: Order) -> bool {
    &&& expressible(order)
    &&& match order {
        Order::Put { key, value, .. } => key.len() <= i64::MAX && value.len() <= i64::MAX,
        Order::Get { key } => key.len() <= i64::MAX,
        Order::Del { key } => key.len() <= i64::MAX,
        Order::Exists { key } => key.len() <= i64::MAX,
        Order::Expire { key, .. } => key.len() <= i64::MAX,
        Order::Ttl { key } => key.len() <= i64::MAX,
        _ => true,
    }
}

/// The orders in a log: those of the frames from its start on, up to the first
/// bytes that are not a frame. A frame that is no command is passed over.
pub open spec fn logged(bytes: Seq<u8>) -> Seq<Order>
    decreases bytes.len(),
{
    match parse(bytes) {
        Ok((frame, n)) => {
            proof {
                law_frame_lies_in_the_buffer(bytes);
            }
            match read_request(frame) {
                Ok(order) => seq![order] + logged(bytes.skip(n)),
                Err(_) => logged(bytes.skip(n)),
            }
        },
        Err(_) => Seq::empty(),
    }
}

/// The items after orders were executed one after the other, each at its time.
pub open spec fn after_all(items: Items, orders: Seq<Order>, times: Seq<nat>) -> Items
    decreases orders.len(),
{
    if orders.len() == 0 {
        items
    } else {
        after(after_all(items, orders.drop_last(), times), orders.last(), times[orders.len() - 1])
    }
}

/// Executes every command in a log, in order, each at the time that the store's
/// clock shows then. Returns how many those were.
#[verifier::rlimit(60)]
#[verifier::spinoff_prover]
pub fn replay_bytes(bytes: &[u8], store: &mut Store) -> (count: usize)
    ensures
        final(store).clock() == old(store).clock(),
        count == logged(bytes@).len(),
        exists|times: Seq<nat>|
            {
                &&& times.len() == logged(bytes@).len()
                &&& runs_on_clock(old(store).clock(), old(store).time(), times)
                &&& final(store).time() == last_time(old(store).time(), times)
                &&& final(store)@ == #[trigger] after_all(old(store)@, logged(bytes@), times)
            },
{
    let mut at: usize = 0;
    let mut count: usize = 0;
    let ghost all = logged(bytes@);
    let ghost mut done: Seq<Order> = Seq::empty();
    let ghost mut times: Seq<nat> = Seq::empty();
    assert(bytes@.skip(0) =~= bytes@);
    loop
        invariant
            at <= bytes@.len(),
            store.clock() == old(store).clock(),
            count <= at,
            count == done.len(),
            count == times.len(),
            done + logged(bytes@.skip(at as int)) == all,
            all == logged(bytes@),
            store@ == after_all(old(store)@, done, times),
            runs_on_clock(old(store).clock(), old(store).time(), times),
            store.time() == last_time(old(store).time(), times),
        decreases bytes@.len() - at,
    {
        let ghost rest = bytes@.skip(at as int);
        match decode_at(bytes, at) {
            Ok((value, end)) => {
                let ghost n = end - at;
                assert(rest.skip(n) =~= bytes@.skip(end as int));
                match Command::from_request(&value) {
                    Ok(command) => {
                        execute(store, &command);
                        count = count + 1;
                        proof {
                            let clock = old(store).clock();
                            let now = store.time();
                            lemma_one_more_order(old(store)@, done, times, command@, now);
                            lemma_one_more_time(clock, old(store).time(), times, now);
                            times = times.push(now);
                            assert(done + (seq![command@] + logged(rest.skip(n))) =~= done.push(
                                command@,
                            ) + logged(rest.skip(n)));
                            done = done.push(command@);
                        }
                    },
                    Err(_) => {},
                }
                at = end;
            },
            // A truncated final command (crash mid-append) and the normal end
            // of the log both look like "not enough bytes left"; replay stops
            // there, and where bytes are no frame at all.
            Err(_) => {
                return count;
            },
        }
    }
}

/// An order that is executed after others is executed on what they left.
pub proof fn lemma_one_more_order(
    items: Items,
    orders: Seq<Order>,
    times: Seq<nat>,
    last: Order,
    now: nat,
)
    requires
        orders.len() == times.len(),
    ensures
        after_all(items, orders.push(last), times.push(now)) == after(
            after_all(items, orders, times),
            last,
            now,
        ),
{
    assert(orders.push(last).drop_last() =~= orders);
    lemma_times_beyond_do_not_matter(items, orders, times, times.push(now));
}

/// Times beyond the orders do not matter.
proof fn lemma_times_beyond_do_not_matter(
    items: Items,
    orders: Seq<Order>,
    times: Seq<nat>,
    more: Seq<nat>,
)
    requires
        orders.len() <= times.len() <= more.len(),
        forall|i: int| 0 <= i < orders.len() ==> times[i] == more[i],
    ensures
        after_all(items, orders, times) == after_all(items, orders, more),
    decreases orders.len(),
{
    if orders.len() > 0 {
        lemma_times_beyond_do_not_matter(items, orders.drop_last(), times, more);
    }
}

/// Encodes `command` as the bytes to append to the log.
pub fn encode(command: &Command) -> (out: Vec<u8>)
    ensures
        out@ == wire(request_of(command@)),
        loggable(command@),
        forall|rest: Seq<u8>| #[trigger]
            parse(out@ + rest) == Ok::<(Frame, int), Fault>(
                (request_of(command@), out@.len() as int),
            ),
{
    let request = command.to_request();
    proof {
        lemma_bulk_strings_are_unbroken(request_parts(command@));
    }
    let out = request.encode();
    proof {
        lemma_lengths_fit(request@);
        lemma_parts_fit(command@);
    }
    out
}

/// A request breaks no line.
proof fn lemma_bulk_strings_are_unbroken(parts: Seq<Frame>)
    requires
        forall|i: int| 0 <= i < parts.len() ==> #[trigger] parts[i] is Bulk,
    ensures
        all_unbroken(parts),
    decreases parts.len(),
{
    if parts.len() > 0 {
        lemma_bulk_strings_are_unbroken(parts.drop_first());
        assert(parts[0] is Bulk);
        assert(unbroken(parts[0]));
        assert(all_unbroken(parts) == (unbroken(parts[0]) && all_unbroken(parts.drop_first())));
    }
}

/// An order whose request can be sent can be logged.
#[verifier::rlimit(60)]
#[verifier::spinoff_prover]
proof fn lemma_parts_fit(order: Order)
    requires
        sendable(request_of(order)),
        expressible(order),
    ensures
        loggable(order),
{
    let parts = request_parts(order);
    if parts.len() > 1 {
        lemma_each_can_be_sent(parts, 1);
        assert(sendable(parts[1]));
    }
    if parts.len() > 2 {
        lemma_each_can_be_sent(parts, 2);
        assert(sendable(parts[2]));
    }
}

} // verus!
