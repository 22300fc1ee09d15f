//! Executes a parsed [`Command`] against a [`Store`], producing the response
//! `Value` to send back over the wire.
//!
//! This is transport-agnostic on purpose: the TCP server calls it per request,
//! and log replay on startup calls it per logged command, so the semantics
//! only need to be right in one place.
use crate::command::{Command, Order};
use crate::duration::{on_clock, Duration, NANOS_PER_MILLI};
use crate::protocol::{Frame, Value};
use crate::store::{
    after_expire, after_read, after_set, present, ttl_at, value_at, Items, Store,
};
use vstd::prelude::*;
use vstd::slice::slice_to_vec;

verus! {

/// The items after an order was executed at the time `now`.
pub open spec fn after(items: Items, order: Order, now: nat) -> Items {
    match order {
        Order::Ping => items,
        Order::Put { key, value, ttl } => after_set(items, key, value, ttl, now),
        Order::Get { key } => after_read(items, key, now),
        Order::Del { key } => items.remove(key),
        Order::Exists { key } => after_read(items, key, now),
        Order::Expire { key, ttl } => after_expire(items, key, ttl, now),
        Order::Ttl { key } => items,
        Order::FlushAll => Items::empty(),
    }
}

/// The number that stands for a truth value.
pub open spec fn truth(b: bool) -> Frame {
    Frame::Integer(
        if b {
            1
        } else {
            0
        },
    )
}

/// The number that stands for the time that is left to a key: whole seconds,
/// of the milliseconds rounded up, or the greatest number there is where those
/// are more, or `-1` for a key that does not expire, or `-2` for a key that is
/// not there.
pub open spec fn seconds_left(ttl: Option<Option<nat>>) -> i64 {
    match ttl {
        None => -2i64,
        Some(None) => -1i64,
        Some(Some(left)) => {
            let secs = (left / NANOS_PER_MILLI as nat + 999) / 1000;
            if secs <= i64::MAX {
                secs as i64
            } else {
                i64::MAX
            }
        },
    }
}

/// The reply to an order that is executed at the time `now`.
pub open spec fn reply(items: Items, order: Order, now: nat) -> Frame {
    match order {
        Order::Ping => Frame::Simple("PONG"@),
        Order::Put { .. } => Frame::Simple("OK"@),
        Order::Get { key } => Frame::Bulk(value_at(items, key, now)),
        Order::Del { key } => truth(items.contains_key(key)),
        Order::Exists { key } => truth(present(items, key, now)),
        Order::Expire { key, .. } => truth(present(items, key, now)),
        Order::Ttl { key } => Frame::Integer(seconds_left(ttl_at(items, key, now))),
        Order::FlushAll => Frame::Simple("OK"@),
    }
}

/// The number that stands for a truth value.
fn truth_value(b: bool) -> (r: Value)
    ensures
        r@ == truth(b),
{
    if b {
        Value::Integer(1)
    } else {
        Value::Integer(0)
    }
}

/// Executes a command as of the time `now` on the store's clock.
pub fn execute_at(store: &mut Store, command: &Command, now: Duration) -> (r: Value)
    ensures
        final(store).clock() == old(store).clock(),
        final(store).time() == old(store).time(),
        r@ == reply(old(store)@, command@, now@),
        final(store)@ == after(old(store)@, command@, now@),
{
    match command {
        Command::Ping => Value::Simple("PONG".to_string()),
        Command::Put { key, value, ttl } => {
            let key = slice_to_vec(key.as_slice());
            let value = slice_to_vec(value.as_slice());
            match ttl {
                Some(ttl) => store.set_with_ttl_at(key, value, *ttl, now),
                None => store.set(key, value),
            }
            Value::ok()
        },
        Command::Get { key } => match store.get_at(key.as_slice(), now) {
            Some(value) => Value::bulk(value),
            None => Value::nil(),
        },
        Command::Del { key } => truth_value(store.del(key.as_slice())),
        Command::Exists { key } => truth_value(store.contains_key_at(key.as_slice(), now)),
        Command::Expire { key, ttl } => truth_value(store.expire_at(key.as_slice(), *ttl, now)),
        Command::Ttl { key } => match store.ttl_at(key.as_slice(), now) {
            // The key does not exist.
            None => Value::Integer(-2),
            // The key does not expire.
            Some(None) => Value::Integer(-1),
            // Rounded up to whole seconds, so that a key set with a TTL of 10
            // seconds still reports 10 immediately afterward.
            Some(Some(left)) => {
                let secs: u128 = (left.as_millis() + 999) / 1000;
                if secs <= i64::MAX as u128 {
                    Value::Integer(secs as i64)
                } else {
                    Value::Integer(i64::MAX)
                }
            },
        },
        Command::FlushAll => {
            store.flush();
            Value::ok()
        },
    }
}

/// Executes a command now.
pub fn execute(store: &mut Store, command: &Command) -> (r: Value)
    ensures
        final(store).clock() == old(store).clock(),
        on_clock(old(store).clock(), old(store).time(), final(store).time()),
        r@ == reply(old(store)@, command@, final(store).time()),
        final(store)@ == after(old(store)@, command@, final(store).time()),
{
    let now = store.now();
    execute_at(store, command, now)
}

/// Whether an order can change what a store holds.
pub open spec fn writes(order: Order) -> bool {
    match order {
        Order::Put { .. } => true,
        Order::Del { .. } => true,
        Order::Expire { .. } => true,
        Order::FlushAll => true,
        _ => false,
    }
}

/// Whether executing `command` can change the store's contents. The log only
/// needs commands where this is `true`.
pub fn is_write(command: &Command) -> (r: bool)
    ensures
        r == writes(command@),
{
    match command {
        Command::Put { .. } => true,
        Command::Del { .. } => true,
        Command::Expire { .. } => true,
        Command::FlushAll => true,
        _ => false,
    }
}

} // verus!
