//! What holds of the log as a whole: the commands that were logged are the
//! commands that are replayed, whatever a crash left behind them.
use crate::aof::{after_all, lemma_one_more_order, loggable, logged};
use crate::command::{read_request, request_of, request_parts, word, Order};
use crate::command_laws::{law_request_is_read_back, rounded};
use crate::duration::{last_time, runs_on_clock, NANOS_PER_MILLI, NANOS_PER_SEC};
use crate::exec::{after, reply, writes};
use crate::exec_laws::{key_of, law_other_keys_stay};
use crate::number::decimal;
use crate::protocol::{parse, wire, Fault, Frame};
use crate::protocol_laws::{
    all_sendable, law_a_cut_frame_is_incomplete, law_frame_lies_in_the_buffer,
    law_what_is_sent_is_received, sendable,
};
use crate::store::Items;
use crate::store_laws::{law_times_on_a_clock_are_in_order, same_at};
use crate::wire_laws::law_an_open_line_waits;
use vstd::prelude::*;
use vstd::utf8::{is_ascii_chars, is_ascii_chars_encode_utf8};

verus! {

/// The log of orders.
pub open spec fn log_of(orders: Seq<Order>) -> Seq<u8>
    decreases orders.len(),
{
    if orders.len() == 0 {
        Seq::empty()
    } else {
        wire(request_of(orders[0])) + log_of(orders.drop_first())
    }
}

/// The number of digits of a number.
proof fn lemma_decimal_is_short(n: nat)
    ensures
        decimal(n).len() <= n / 10 + 1,
    decreases n,
{
    if n >= 10 {
        lemma_decimal_is_short(n / 10);
    }
}

proof fn lemma_word_is_sendable(text: Seq<char>)
    requires
        is_ascii_chars(text),
        text.len() <= 8,
    ensures
        sendable(word(text)),
{
    is_ascii_chars_encode_utf8(text);
}

/// Frames that can be sent one by one can be sent one after the other.
proof fn lemma_all_sendable(frames: Seq<Frame>)
    requires
        forall|i: int| 0 <= i < frames.len() ==> sendable(#[trigger] frames[i]),
    ensures
        all_sendable(frames),
    decreases frames.len(),
{
    if frames.len() > 0 {
        lemma_all_sendable(frames.drop_first());
    }
}

/// The request of an order that can be logged can be sent.
#[verifier::rlimit(60)]
#[verifier::spinoff_prover]
pub proof fn law_a_loggable_order_is_sendable(order: Order)
    requires
        loggable(order),
    ensures
        sendable(request_of(order)),
{
    reveal_strlit("PING");
    reveal_strlit("GET");
    reveal_strlit("DEL");
    reveal_strlit("EXISTS");
    reveal_strlit("TTL");
    reveal_strlit("FLUSHALL");
    reveal_strlit("EXPIRE");
    reveal_strlit("SET");
    reveal_strlit("PX");
    reveal_strlit("EX");
    lemma_word_is_sendable("PING"@);
    lemma_word_is_sendable("GET"@);
    lemma_word_is_sendable("DEL"@);
    lemma_word_is_sendable("EXISTS"@);
    lemma_word_is_sendable("TTL"@);
    lemma_word_is_sendable("FLUSHALL"@);
    lemma_word_is_sendable("EXPIRE"@);
    lemma_word_is_sendable("SET"@);
    lemma_word_is_sendable("PX"@);
    lemma_word_is_sendable("EX"@);
    match order {
        Order::Put { ttl: Some(ttl), .. } => {
            lemma_decimal_is_short(ttl / NANOS_PER_MILLI as nat);
            lemma_decimal_is_short(ttl / NANOS_PER_SEC as nat);
        },
        Order::Expire { ttl, .. } => {
            lemma_decimal_is_short(ttl / NANOS_PER_SEC as nat);
        },
        _ => {},
    }
    lemma_all_sendable(request_parts(order));
}

/// A log is read as the orders that were logged, and then as what follows.
#[verifier::rlimit(60)]
#[verifier::spinoff_prover]
pub proof fn law_what_is_logged_is_replayed(orders: Seq<Order>, rest: Seq<u8>)
    requires
        forall|i: int| 0 <= i < orders.len() ==> loggable(#[trigger] orders[i]),
    ensures
        logged(log_of(orders) + rest) == orders.map_values(|order: Order| rounded(order)) + logged(
            rest,
        ),
    decreases orders.len(),
{
    if orders.len() == 0 {
    } else {
        let tail = orders.drop_first();
        let frame = request_of(orders[0]);
        let bytes = log_of(orders) + rest;
        law_a_loggable_order_is_sendable(orders[0]);
        law_request_is_read_back(orders[0]);
        assert(bytes =~= wire(frame) + (log_of(tail) + rest));
        law_what_is_sent_is_received(frame, log_of(tail) + rest);
        assert(bytes.skip(wire(frame).len() as int) =~= log_of(tail) + rest);
        law_what_is_logged_is_replayed(tail, rest);
    }
}

/// A log whose last entry was cut short, wherever that is, is read as the
/// orders before it.
pub proof fn law_a_cut_entry_is_dropped(orders: Seq<Order>, last: Order, n: int)
    requires
        forall|i: int| 0 <= i < orders.len() ==> loggable(#[trigger] orders[i]),
        loggable(last),
        0 <= n < wire(request_of(last)).len(),
    ensures
        logged(log_of(orders) + wire(request_of(last)).take(n)) == orders.map_values(
            |order: Order| rounded(order),
        ),
{
    let rest = wire(request_of(last)).take(n);
    law_a_loggable_order_is_sendable(last);
    law_a_cut_frame_is_incomplete(request_of(last), n);
    law_what_is_logged_is_replayed(orders, rest);
}

/// The entry of an order is one whole frame, the request of the order, whatever
/// follows it.
pub proof fn law_an_entry_is_one_frame(order: Order, rest: Seq<u8>)
    requires
        loggable(order),
    ensures
        parse(wire(request_of(order)) + rest) == Ok::<(Frame, int), Fault>(
            (request_of(order), wire(request_of(order)).len() as int),
        ),
{
    law_a_loggable_order_is_sendable(order);
    law_what_is_sent_is_received(request_of(order), rest);
}

/// A log is read up to the first bytes that are no frame: as the orders that
/// were logged, where each of them is read back from its request.
pub proof fn law_a_bad_entry_ends_the_log(orders: Seq<Order>, rest: Seq<u8>)
    requires
        forall|i: int| 0 <= i < orders.len() ==> loggable(#[trigger] orders[i]),
        parse(rest) is Err,
    ensures
        logged(log_of(orders) + rest) == orders.map_values(|order: Order| rounded(order)),
        (forall|i: int|
            0 <= i < orders.len() ==> read_request(request_of(#[trigger] orders[i])) == Ok::<
                Order,
                Seq<char>,
            >(orders[i])) ==> logged(log_of(orders) + rest) == orders,
{
    law_what_is_logged_is_replayed(orders, rest);
    assert forall|i: int| 0 <= i < orders.len() implies read_request(
        request_of(#[trigger] orders[i]),
    ) == Ok::<Order, Seq<char>>(rounded(orders[i])) by {
        law_request_is_read_back(orders[i]);
    }
}

/// The orders of a sequence that write: those that are logged.
pub open spec fn writes_of(orders: Seq<Order>) -> Seq<Order>
    decreases orders.len(),
{
    if orders.len() == 0 {
        Seq::empty()
    } else if writes(orders.last()) {
        writes_of(orders.drop_last()).push(orders.last())
    } else {
        writes_of(orders.drop_last())
    }
}

/// Whether an order sets no time to live.
pub open spec fn timeless(order: Order) -> bool {
    match order {
        Order::Put { ttl, .. } => ttl is None,
        Order::Expire { .. } => false,
        _ => true,
    }
}

/// What is replayed of orders: those that write, as a request can give them.
pub open spec fn replayed(orders: Seq<Order>) -> Seq<Order> {
    writes_of(orders).map_values(|order: Order| rounded(order))
}

/// Replaying the writes rebuilds the item of a key for which no time to live
/// was set: whenever the orders were executed, and whenever they are replayed,
/// a store that starts out empty ends up with the same.
pub proof fn law_replay_rebuilds_a_key(
    orders: Seq<Order>,
    times: Seq<nat>,
    later: Seq<nat>,
    key: Seq<u8>,
)
    requires
        forall|i: int|
            0 <= i < orders.len() ==> (key_of(#[trigger] orders[i]) == Some(key) ==> timeless(
                orders[i],
            )),
    ensures
        ({
            let before = after_all(Items::empty(), orders, times);
            let rebuilt = after_all(Items::empty(), replayed(orders), later);
            &&& rebuilt.contains_key(key) == before.contains_key(key)
            &&& before.contains_key(key) ==> rebuilt[key] == before[key]
                && before[key].expires_at is None
        }),
    decreases orders.len(),
{
    if orders.len() > 0 {
        let front = orders.drop_last();
        let last = orders.last();
        law_replay_rebuilds_a_key(front, times, later, key);
        if writes(last) {
            assert(replayed(orders).drop_last() =~= replayed(front));
        }
    }
}

/// Replaying the writes loses nothing that a store held, whatever times to live
/// were set: each value is there again, with a time to live if it had one.
pub proof fn law_replay_loses_nothing(
    orders: Seq<Order>,
    times: Seq<nat>,
    later: Seq<nat>,
    key: Seq<u8>,
)
    ensures
        ({
            let before = after_all(Items::empty(), orders, times);
            let rebuilt = after_all(Items::empty(), replayed(orders), later);
            before.contains_key(key) ==> {
                &&& rebuilt.contains_key(key)
                &&& rebuilt[key].value == before[key].value
                &&& rebuilt[key].expires_at is Some == before[key].expires_at is Some
            }
        }),
    decreases orders.len(),
{
    if orders.len() > 0 {
        let front = orders.drop_last();
        let last = orders.last();
        law_replay_loses_nothing(front, times, later, key);
        if writes(last) {
            assert(replayed(orders).drop_last() =~= replayed(front));
        }
    }
}

/// The log of the writes loses nothing that a store held, whatever times to
/// live were set.
pub proof fn law_the_log_loses_nothing(
    orders: Seq<Order>,
    times: Seq<nat>,
    later: Seq<nat>,
    key: Seq<u8>,
)
    requires
        forall|i: int| 0 <= i < orders.len() ==> loggable(#[trigger] orders[i]),
    ensures
        ({
            let before = after_all(Items::empty(), orders, times);
            let rebuilt = after_all(Items::empty(), logged(log_of(writes_of(orders))), later);
            before.contains_key(key) ==> {
                &&& rebuilt.contains_key(key)
                &&& rebuilt[key].value == before[key].value
                &&& rebuilt[key].expires_at is Some == before[key].expires_at is Some
            }
        }),
{
    law_replay_loses_nothing(orders, times, later, key);
    lemma_log_is_what_is_replayed(orders);
}

/// The log of the writes rebuilds the item of a key for which no time to live
/// was set.
pub proof fn law_the_log_rebuilds_a_key(
    orders: Seq<Order>,
    times: Seq<nat>,
    later: Seq<nat>,
    key: Seq<u8>,
)
    requires
        forall|i: int| 0 <= i < orders.len() ==> loggable(#[trigger] orders[i]),
        forall|i: int|
            0 <= i < orders.len() ==> (key_of(#[trigger] orders[i]) == Some(key) ==> timeless(
                orders[i],
            )),
    ensures
        ({
            let before = after_all(Items::empty(), orders, times);
            let rebuilt = after_all(Items::empty(), logged(log_of(writes_of(orders))), later);
            &&& rebuilt.contains_key(key) == before.contains_key(key)
            &&& before.contains_key(key) ==> rebuilt[key] == before[key]
        }),
{
    law_replay_rebuilds_a_key(orders, times, later, key);
    lemma_log_is_what_is_replayed(orders);
}

/// The log of the writes rebuilds what a store held, where no time to live was
/// set.
pub proof fn law_the_log_rebuilds_the_store(orders: Seq<Order>, times: Seq<nat>, later: Seq<nat>)
    requires
        forall|i: int| 0 <= i < orders.len() ==> loggable(#[trigger] orders[i]),
        forall|i: int| 0 <= i < orders.len() ==> timeless(#[trigger] orders[i]),
    ensures
        after_all(Items::empty(), logged(log_of(writes_of(orders))), later) == after_all(
            Items::empty(),
            orders,
            times,
        ),
{
    let before = after_all(Items::empty(), orders, times);
    let rebuilt = after_all(Items::empty(), logged(log_of(writes_of(orders))), later);
    assert forall|key: Seq<u8>|
        #![trigger before.contains_key(key)]
        #![trigger rebuilt.contains_key(key)]
        {
            &&& rebuilt.contains_key(key) == before.contains_key(key)
            &&& before.contains_key(key) ==> rebuilt[key] == before[key]
        } by {
        law_the_log_rebuilds_a_key(orders, times, later, key);
    }
}

proof fn lemma_log_is_what_is_replayed(orders: Seq<Order>)
    requires
        forall|i: int| 0 <= i < orders.len() ==> loggable(#[trigger] orders[i]),
    ensures
        logged(log_of(writes_of(orders))) == replayed(orders),
{
    let written = writes_of(orders);
    lemma_writes_are_loggable(orders);
    law_what_is_logged_is_replayed(written, Seq::empty());
}

proof fn lemma_writes_are_loggable(orders: Seq<Order>)
    requires
        forall|i: int| 0 <= i < orders.len() ==> loggable(#[trigger] orders[i]),
    ensures
        forall|i: int|
            0 <= i < writes_of(orders).len() ==> loggable(#[trigger] writes_of(orders)[i]),
    decreases orders.len(),
{
    if orders.len() > 0 {
        let front = orders.drop_last();
        lemma_writes_are_loggable(front);
        let (written, earlier) = (writes_of(orders), writes_of(front));
    }
}

/// A log is read frame by frame: an entry that is a command comes before those
/// behind it, one that is none is passed over, and bytes that are no frame end
/// the log.
pub proof fn law_how_a_log_is_read(bytes: Seq<u8>)
    ensures
        match parse(bytes) {
            Ok((frame, n)) => match read_request(frame) {
                Ok(order) => logged(bytes) == seq![order] + logged(bytes.skip(n)),
                Err(_) => logged(bytes) == logged(bytes.skip(n)),
            },
            Err(_) => logged(bytes) == Seq::<Order>::empty(),
        },
        logged(Seq::empty()) == Seq::<Order>::empty(),
{
    law_frame_lies_in_the_buffer(bytes);
    law_an_open_line_waits(Seq::empty());
}

/// Orders are executed one after the other, each on what the one before it left,
/// at its own time.
pub proof fn law_orders_are_executed_in_order(
    items: Items,
    orders: Seq<Order>,
    times: Seq<nat>,
    last: Order,
    now: nat,
)
    requires
        orders.len() == times.len(),
    ensures
        after_all(items, Seq::empty(), times) == items,
        after_all(items, orders.push(last), times.push(now)) == after(
            after_all(items, orders, times),
            last,
            now,
        ),
{
    lemma_one_more_order(items, orders, times, last, now);
}

/// Orders that are not about a key, and do not flush, leave it as it is.
proof fn lemma_a_key_stays(
    items: Items,
    orders: Seq<Order>,
    times: Seq<nat>,
    from: int,
    key: Seq<u8>,
)
    requires
        0 <= from <= orders.len(),
        forall|i: int|
            from <= i < orders.len() ==> key_of(#[trigger] orders[i]) != Some(key) && orders[i]
                !is FlushAll,
    ensures
        same_at(
            after_all(items, orders, times),
            after_all(items, orders.take(from), times),
            key,
        ),
    decreases orders.len(),
{
    if from == orders.len() {
        assert(orders.take(from) =~= orders);
    } else {
        let front = orders.drop_last();
        assert forall|i: int| from <= i < front.len() implies key_of(#[trigger] front[i]) != Some(
            key,
        ) && front[i] !is FlushAll by {
            assert(front[i] == orders[i]);
        }
        lemma_a_key_stays(items, front, times, from, key);
        assert(front.take(from) =~= orders.take(from));
        let last = orders[orders.len() - 1];
        assert(key_of(last) != Some(key) && last !is FlushAll);
        law_other_keys_stay(
            after_all(items, front, times),
            last,
            key,
            times[orders.len() - 1],
        );
    }
}

/// A key that is replayed with a time to live expires when that has passed from
/// a time that the clock showed during the replay: no sooner than it has passed
/// from what the clock showed before, and no later than from what it shows
/// after. It has the value that was logged until then.
pub proof fn law_a_replayed_key_expires_in_time(
    origin: std::time::Instant,
    from: nat,
    items: Items,
    orders: Seq<Order>,
    times: Seq<nat>,
    i: int,
    key: Seq<u8>,
    value: Seq<u8>,
    ttl: nat,
)
    requires
        runs_on_clock(origin, from, times),
        times.len() == orders.len(),
        0 <= i < orders.len(),
        orders[i] == (Order::Put { key, value, ttl: Some(ttl) }),
        forall|j: int|
            i < j < orders.len() ==> key_of(#[trigger] orders[j]) != Some(key) && orders[j]
                !is FlushAll,
    ensures
        ({
            let rebuilt = after_all(items, orders, times);
            &&& rebuilt.contains_key(key)
            &&& rebuilt[key].value == value
            &&& rebuilt[key].expires_at matches Some(deadline)
            &&& from + ttl <= deadline <= last_time(from, times) + ttl
            &&& ttl > 0 ==> reply(rebuilt, Order::Get { key }, from) == Frame::Bulk(Some(value))
            &&& reply(rebuilt, Order::Get { key }, last_time(from, times) + ttl) == Frame::Bulk(
                None,
            )
        }),
{
    law_times_on_a_clock_are_in_order(origin, from, times, i, i);
    lemma_a_key_stays(items, orders, times, i + 1, key);
    let done = orders.take(i + 1);
    assert(done.last() == orders[i]);
    assert(after_all(items, done, times) == after(
        after_all(items, done.drop_last(), times),
        orders[i],
        times[i],
    ));
}

} // verus!
