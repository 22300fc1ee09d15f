//! What holds of a store as a whole: what a read gives back of a write, when a
//! key expires, what stays unchanged.
use crate::command::Order;
use crate::duration::{NANOS_PER_MILLI, NANOS_PER_SEC};
use crate::exec::{after, reply, seconds_left, writes};
use crate::protocol::Frame;
use crate::store::{present, ttl_at, value_at, Items};
use crate::store_laws::same_at;
use crate::table::{live, Item};
use vstd::prelude::*;

verus! {

/// The key that an order is about, if it is about one.
pub open spec fn key_of(order: Order) -> Option<Seq<u8>> {
    match order {
        Order::Ping => None,
        Order::Put { key, .. } => Some(key),
        Order::Get { key } => Some(key),
        Order::Del { key } => Some(key),
        Order::Exists { key } => Some(key),
        Order::Expire { key, .. } => Some(key),
        Order::Ttl { key } => Some(key),
        Order::FlushAll => None,
    }
}

/// A key that is set without a time to live has its value from then on, and
/// reports that it does not expire.
pub proof fn law_what_is_set_is_read(
    items: Items,
    key: Seq<u8>,
    value: Seq<u8>,
    now: nat,
    later: nat,
)
    ensures
        ({
            let then = after(items, Order::Put { key, value, ttl: None }, now);
            &&& reply(then, Order::Get { key }, later) == Frame::Bulk(Some(value))
            &&& reply(then, Order::Exists { key }, later) == Frame::Integer(1)
            &&& reply(then, Order::Ttl { key }, later) == Frame::Integer(-1i64)
        }),
{
}

/// A key that is set with a time to live has its value until that has passed,
/// and not from then on.
pub proof fn law_what_is_set_expires(
    items: Items,
    key: Seq<u8>,
    value: Seq<u8>,
    ttl: nat,
    now: nat,
    later: nat,
)
    ensures
        ({
            let then = after(items, Order::Put { key, value, ttl: Some(ttl) }, now);
            if later < now + ttl {
                &&& reply(then, Order::Get { key }, later) == Frame::Bulk(Some(value))
                &&& reply(then, Order::Exists { key }, later) == Frame::Integer(1)
            } else {
                &&& reply(then, Order::Get { key }, later) == Frame::Bulk(None)
                &&& reply(then, Order::Exists { key }, later) == Frame::Integer(0)
                &&& reply(then, Order::Ttl { key }, later) == Frame::Integer(-2i64)
            }
        }),
{
}

/// A new time to live counts from the order that gives it, and leaves the
/// value as it is. A key that is not there, or has expired, is not given one.
pub proof fn law_expire_sets_the_time_to_live(
    items: Items,
    key: Seq<u8>,
    ttl: nat,
    now: nat,
    later: nat,
)
    ensures
        ({
            let order = Order::Expire { key, ttl };
            let then = after(items, order, now);
            if present(items, key, now) {
                &&& reply(items, order, now) == Frame::Integer(1)
                &&& value_at(then, key, later) == if later < now + ttl {
                    Some(items[key].value)
                } else {
                    None
                }
            } else {
                &&& reply(items, order, now) == Frame::Integer(0)
                &&& then == items
            }
        }),
{
}

/// A key that is deleted is gone, and a second delete finds nothing.
pub proof fn law_what_is_deleted_is_gone(items: Items, key: Seq<u8>, now: nat, later: nat)
    ensures
        ({
            let then = after(items, Order::Del { key }, now);
            &&& reply(then, Order::Get { key }, later) == Frame::Bulk(None)
            &&& reply(then, Order::Exists { key }, later) == Frame::Integer(0)
            &&& reply(then, Order::Ttl { key }, later) == Frame::Integer(-2i64)
            &&& reply(then, Order::Del { key }, later) == Frame::Integer(0)
        }),
{
}

/// No key is left after everything was flushed.
pub proof fn law_flush_leaves_nothing(items: Items, key: Seq<u8>, now: nat, later: nat)
    ensures
        ({
            let then = after(items, Order::FlushAll, now);
            &&& reply(then, Order::Get { key }, later) == Frame::Bulk(None)
            &&& reply(then, Order::Exists { key }, later) == Frame::Integer(0)
            &&& reply(then, Order::Ttl { key }, later) == Frame::Integer(-2i64)
            &&& reply(then, Order::Del { key }, later) == Frame::Integer(0)
        }),
{
}

/// An order leaves every key but its own as it is.
pub proof fn law_other_keys_stay(items: Items, order: Order, other: Seq<u8>, now: nat)
    requires
        key_of(order) != Some(other),
        order !is FlushAll,
    ensures
        ({
            let then = after(items, order, now);
            &&& then.contains_key(other) == items.contains_key(other)
            &&& then.contains_key(other) ==> then[other] == items[other]
        }),
{
}

/// What was set last is what counts: the order before it on the same key
/// leaves no trace.
pub proof fn law_the_last_set_counts(
    items: Items,
    before: Order,
    key: Seq<u8>,
    value: Seq<u8>,
    ttl: Option<nat>,
    earlier: nat,
    now: nat,
)
    requires
        key_of(before) == Some(key),
    ensures
        ({
            let order = Order::Put { key, value, ttl };
            after(after(items, before, earlier), order, now) == after(items, order, now)
        }),
{
    let order = Order::Put { key, value, ttl };
}

/// An order that does not write changes nothing that any later read finds:
/// at most it removes an item that has expired.
pub proof fn law_reads_change_nothing(items: Items, order: Order, now: nat, later: nat)
    requires
        !writes(order),
        now <= later,
    ensures
        live(after(items, order, now), later) == live(items, later),
        after(items, order, now).submap_of(items),
{
}

/// An order that writes can change what a store holds: there is a store on
/// which it does.
pub proof fn law_writes_can_change_something(order: Order)
    requires
        writes(order),
    ensures
        exists|items: Items, now: nat|
            live(#[trigger] after(items, order, now), now) != live(items, now),
{
    let item = Item { value: Seq::empty(), expires_at: None };
    let key = match key_of(order) {
        Some(key) => key,
        None => Seq::empty(),
    };
    let now: nat = 0;
    let items = if order matches Order::Put { ttl: None, .. } {
        Items::empty()
    } else {
        Items::empty().insert(key, item)
    };
    let (before, then) = (live(items, now), live(after(items, order, now), now));
    assert(before.contains_key(key) != then.contains_key(key) || before[key] != then[key]);
}

/// What has not expired is all that a read depends on.
pub proof fn law_reads_depend_on_what_is_live(items: Items, order: Order, now: nat)
    requires
        !writes(order),
    ensures
        reply(live(items, now), order, now) == reply(items, order, now),
        live(after(live(items, now), order, now), now) == live(after(items, order, now), now),
{
}

/// A sweep of what has expired leaves nothing that has, takes nothing that has
/// not, and changes nothing that any later read finds.
pub proof fn law_a_sweep_is_not_seen(items: Items, order: Order, now: nat, later: nat)
    requires
        !writes(order),
        now <= later,
    ensures
        live(live(items, now), now) == live(items, now),
        live(live(items, now), later) == live(items, later),
        reply(live(items, now), order, later) == reply(items, order, later),
{
}

/// A key that has expired stays so.
pub proof fn law_what_has_expired_stays_so(items: Items, key: Seq<u8>, now: nat, later: nat)
    requires
        now <= later,
    ensures
        !present(items, key, now) ==> !present(items, key, later),
{
}

/// A key that is set with a time to live of whole seconds reports that many
/// seconds until the last millisecond of the first of them, or the greatest
/// number that there is where they are more.
pub proof fn law_a_whole_ttl_is_reported(
    items: Items,
    key: Seq<u8>,
    value: Seq<u8>,
    secs: nat,
    now: nat,
    later: nat,
)
    requires
        0 < secs,
        now <= later <= now + 999 * NANOS_PER_MILLI,
    ensures
        ({
            let ttl = Some(secs * NANOS_PER_SEC as nat);
            let then = after(items, Order::Put { key, value, ttl }, now);
            reply(then, Order::Ttl { key }, later) == Frame::Integer(
                if secs <= i64::MAX {
                    secs as i64
                } else {
                    i64::MAX
                },
            )
        }),
{
}

/// The seconds that a key reports never exceed the time that is left to it by a
/// second, nor fall short of it by a millisecond, unless they are the greatest
/// number that there is. They are never one of the numbers that stand for a key
/// without an expiry, or for no key.
pub proof fn law_reported_seconds_are_close(items: Items, key: Seq<u8>, now: nat)
    requires
        present(items, key, now),
        items[key].expires_at is Some,
    ensures
        ({
            let left = items[key].expires_at->0 - now;
            let secs = seconds_left(ttl_at(items, key, now));
            &&& secs * NANOS_PER_SEC < left + NANOS_PER_SEC
            &&& secs < i64::MAX ==> left - NANOS_PER_MILLI < secs * NANOS_PER_SEC
            &&& secs >= 0
        }),
{
}

/// A delete replies `1` exactly where it takes a key away, and `0` otherwise,
/// whatever the expiry of the key: a key that is present is always one that is
/// taken away.
pub proof fn law_a_delete_reports_what_it_takes(
    items: Items,
    key: Seq<u8>,
    other: Seq<u8>,
    now: nat,
)
    ensures
        ({
            let (then, answer) = (
                after(items, Order::Del { key }, now),
                reply(items, Order::Del { key }, now),
            );
            &&& !then.contains_key(key)
            &&& other != key ==> same_at(then, items, other)
            &&& answer == Frame::Integer(1) <==> then != items
            &&& answer == Frame::Integer(1) || answer == Frame::Integer(0)
            &&& present(items, key, now) ==> answer == Frame::Integer(1)
            &&& !items.contains_key(key) ==> answer == Frame::Integer(0)
            &&& items.dom().finite() ==> (answer == Frame::Integer(1) <==> then.len() + 1
                == items.len())
        }),
{
    let then = after(items, Order::Del { key }, now);
    if !items.contains_key(key) {
        assert(then =~= items);
    } else {
        assert(then.contains_key(key) != items.contains_key(key));
    }
}

/// A key that was set is taken away by a delete before its time to live has
/// passed, which reports that it was, whatever the time to live.
pub proof fn law_a_set_key_is_deleted(
    items: Items,
    key: Seq<u8>,
    value: Seq<u8>,
    ttl: Option<nat>,
    now: nat,
    later: nat,
)
    requires
        ttl matches Some(ttl) ==> later < now + ttl,
    ensures
        reply(after(items, Order::Put { key, value, ttl }, now), Order::Del { key }, later)
            == Frame::Integer(1),
{
}

/// `EXISTS` replies `1` where a `GET` finds a value, and `0` where it finds none;
/// a `GET` finds the value under the key where that has not expired.
pub proof fn law_reads_find_what_is_present(items: Items, key: Seq<u8>, now: nat)
    ensures
        ({
            let (got, found) = (
                reply(items, Order::Get { key }, now),
                reply(items, Order::Exists { key }, now),
            );
            if items.contains_key(key) && (items[key].expires_at matches Some(deadline)
                ==> now < deadline) {
                got == Frame::Bulk(Some(items[key].value)) && found == Frame::Integer(1)
            } else {
                got == Frame::Bulk(None) && found == Frame::Integer(0)
            }
        }),
{
}

/// A `GET` or an `EXISTS` removes its key where that has expired, and changes
/// nothing else; a `TTL` or a `PING` changes nothing.
pub proof fn law_reads_remove_what_has_expired(items: Items, key: Seq<u8>, now: nat)
    ensures
        after(items, Order::Get { key }, now) == after(items, Order::Exists { key }, now),
        present(items, key, now) ==> after(items, Order::Get { key }, now) == items,
        !present(items, key, now) ==> after(items, Order::Get { key }, now) == items.remove(key),
        after(items, Order::Ttl { key }, now) == items,
        after(items, Order::Ping, now) == items,
{
}

/// What a `SET` leaves behind: the value under its key, until the time to live
/// has passed from now or for ever, and every other key as it was. It replies
/// `OK`, as a `FLUSHALL` does, which leaves nothing; a `PING` is replied `PONG`.
pub proof fn law_what_writes_leave(
    items: Items,
    key: Seq<u8>,
    value: Seq<u8>,
    ttl: Option<nat>,
    other: Seq<u8>,
    now: nat,
)
    ensures
        ({
            let order = Order::Put { key, value, ttl };
            let then = after(items, order, now);
            &&& other != key ==> same_at(then, items, other)
            &&& reply(items, order, now) == Frame::Simple("OK"@)
            &&& then.contains_key(key)
            &&& then[key].value == value
            &&& ttl is None ==> then[key].expires_at is None
            &&& ttl is Some ==> then[key].expires_at == Some(now + ttl->0)
        }),
        reply(items, Order::FlushAll, now) == Frame::Simple("OK"@),
        !after(items, Order::FlushAll, now).contains_key(other),
        reply(items, Order::Ping, now) == Frame::Simple("PONG"@),
{
}

/// What an `EXPIRE` leaves behind: the same value under its key, until the time
/// to live has passed from now, and every other key as it was.
pub proof fn law_what_expire_leaves(
    items: Items,
    key: Seq<u8>,
    ttl: nat,
    other: Seq<u8>,
    now: nat,
)
    ensures
        ({
            let order = Order::Expire { key, ttl };
            let then = after(items, order, now);
            if present(items, key, now) {
                &&& reply(items, order, now) == Frame::Integer(1)
                &&& other != key ==> same_at(then, items, other)
                &&& then.contains_key(key)
                &&& then[key].value == items[key].value
                &&& then[key].expires_at == Some(now + ttl)
            } else {
                &&& reply(items, order, now) == Frame::Integer(0)
                &&& then == items
            }
        }),
{
}

/// A `TTL` replies the whole milliseconds that are left, in seconds rounded up,
/// or the greatest number that there is where they are more; `-1` for a key
/// that does not expire, and `-2` for one that is not there.
pub proof fn law_how_the_time_left_is_replied(items: Items, key: Seq<u8>, now: nat)
    ensures
        ({
            let answer = reply(items, Order::Ttl { key }, now);
            &&& !present(items, key, now) ==> answer == Frame::Integer(-2i64)
            &&& present(items, key, now) && items[key].expires_at is None ==> answer
                == Frame::Integer(-1i64)
            &&& present(items, key, now) && items[key].expires_at is Some ==> {
                let millis = (items[key].expires_at->0 - now) / 1_000_000;
                &&& answer matches Frame::Integer(secs)
                &&& millis <= i64::MAX * 1000 ==> (secs - 1) * 1000 < millis <= secs * 1000
                &&& millis > i64::MAX * 1000 ==> secs == i64::MAX
            }
        }),
{
}

/// Which orders are writes.
pub proof fn law_which_orders_write(key: Seq<u8>, value: Seq<u8>, ttl: Option<nat>, span: nat)
    ensures
        writes(Order::Put { key, value, ttl }),
        writes(Order::Del { key }),
        writes(Order::Expire { key, ttl: span }),
        writes(Order::FlushAll),
        !writes(Order::Ping),
        !writes(Order::Get { key }),
        !writes(Order::Exists { key }),
        !writes(Order::Ttl { key }),
{
}

} // verus!
