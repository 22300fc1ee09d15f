//! What holds of a store's operations, told by what each key has before and
//! after.
use crate::duration::{
    last_time, on_clock, runs_on_clock, MAX_NANOS, NANOS_PER_MILLI, NANOS_PER_SEC,
};
use crate::store::{
    after_expire, after_read, after_set, fresh, present, ttl_at, value_at, Items,
};
use crate::table::{live, Entry, Item};
use vstd::prelude::*;

verus! {

/// Whether two stores have the same under a key.
pub open spec fn same_at(a: Items, b: Items, key: Seq<u8>) -> bool {
    a.contains_key(key) == b.contains_key(key) && (a.contains_key(key) ==> a[key] == b[key])
}

/// What is in a second, in a millisecond and in the longest span, in
/// nanoseconds.
pub proof fn law_units_of_time()
    ensures
        NANOS_PER_SEC == 1_000_000_000,
        NANOS_PER_MILLI * 1000 == NANOS_PER_SEC,
        MAX_NANOS + 1 == 0x1_0000_0000_0000_0000 * NANOS_PER_SEC,
{
}

/// A clock never runs backwards, and shows a reading unless that fell behind.
pub proof fn law_a_clock_never_runs_backwards(origin: std::time::Instant, earlier: nat, now: nat)
    requires
        on_clock(origin, earlier, now),
    ensures
        earlier <= now,
{
}

/// Times that are read from a clock one after the other do not decrease, and lie
/// between what the clock showed before and what it shows after.
pub proof fn law_times_on_a_clock_are_in_order(
    origin: std::time::Instant,
    from: nat,
    times: Seq<nat>,
    i: int,
    j: int,
)
    requires
        runs_on_clock(origin, from, times),
        0 <= i <= j < times.len(),
    ensures
        from <= times[i] <= times[j] <= last_time(from, times),
    decreases times.len() - i, i,
{
    assert(on_clock(origin, last_time(from, times.take(i)), times[i]));
    if i > 0 {
        assert(times.take(i).last() == times[i - 1]);
        lemma_times_start_late(origin, from, times, i);
    }
    lemma_times_end_early(origin, from, times, i, j);
    lemma_times_end_early(origin, from, times, j, times.len() - 1);
}

proof fn lemma_times_start_late(origin: std::time::Instant, from: nat, times: Seq<nat>, i: int)
    requires
        runs_on_clock(origin, from, times),
        0 <= i < times.len(),
    ensures
        from <= times[i],
    decreases i,
{
    assert(on_clock(origin, last_time(from, times.take(i)), times[i]));
    if i > 0 {
        assert(times.take(i).last() == times[i - 1]);
        lemma_times_start_late(origin, from, times, i - 1);
    }
}

proof fn lemma_times_end_early(
    origin: std::time::Instant,
    from: nat,
    times: Seq<nat>,
    i: int,
    j: int,
)
    requires
        runs_on_clock(origin, from, times),
        0 <= i <= j < times.len(),
    ensures
        times[i] <= times[j],
    decreases j - i,
{
    if i < j {
        lemma_times_end_early(origin, from, times, i, j - 1);
        assert(on_clock(origin, last_time(from, times.take(j)), times[j]));
        assert(times.take(j).last() == times[j - 1]);
    }
}

/// A key is present from when it is there until the moment at which it expires,
/// and at that moment it is not; one that does not expire is always present.
pub proof fn law_a_key_is_present_until_it_expires(items: Items, key: Seq<u8>, now: nat)
    ensures
        present(items, key, now) <==> items.contains_key(key) && match items[key].expires_at {
            None => true,
            Some(deadline) => now < deadline,
        },
{
}

/// A read gives the value of a key that is present, and nothing of another.
pub proof fn law_a_read_gives_the_value(items: Items, key: Seq<u8>, now: nat)
    ensures
        value_at(items, key, now) is Some <==> present(items, key, now),
        present(items, key, now) ==> value_at(items, key, now) == Some(items[key].value),
{
}

/// A read removes its key where that has expired, and nothing else.
pub proof fn law_a_read_removes_what_has_expired(
    items: Items,
    key: Seq<u8>,
    other: Seq<u8>,
    now: nat,
)
    ensures
        after_read(items, key, now).contains_key(key) <==> present(items, key, now),
        present(items, key, now) ==> after_read(items, key, now) == items,
        other != key ==> same_at(after_read(items, key, now), items, other),
{
}

/// A key that is set has the value, and expires when its time to live has passed
/// from now, or never where it has none; every other key is as it was.
pub proof fn law_a_set_key_has_what_was_set(
    items: Items,
    key: Seq<u8>,
    value: Seq<u8>,
    ttl: nat,
    other: Seq<u8>,
    now: nat,
)
    ensures
        ({
            let (timed, timeless) = (
                after_set(items, key, value, Some(ttl), now),
                after_set(items, key, value, None, now),
            );
            &&& timed.contains_key(key) && timeless.contains_key(key)
            &&& timed[key].value == value && timeless[key].value == value
            &&& timed[key].expires_at == Some(now + ttl)
            &&& timeless[key].expires_at is None
            &&& other != key ==> same_at(timed, items, other) && same_at(timeless, items, other)
            &&& fresh(value, Some(ttl), now) == timed[key]
            &&& fresh(value, None, now) == timeless[key]
        }),
{
}

/// A new time to live is given to a key that is present, which keeps its value,
/// and to no other.
pub proof fn law_a_new_expiry_keeps_the_value(
    items: Items,
    key: Seq<u8>,
    ttl: nat,
    other: Seq<u8>,
    now: nat,
)
    ensures
        ({
            let then = after_expire(items, key, ttl, now);
            &&& present(items, key, now) ==> {
                &&& then.contains_key(key)
                &&& then[key].value == items[key].value
                &&& then[key].expires_at == Some(now + ttl)
            }
            &&& !present(items, key, now) ==> then == items
            &&& other != key ==> same_at(then, items, other)
        }),
{
}

/// The time that is left to a key is what lies between now and the moment at
/// which it expires.
pub proof fn law_the_time_left_ends_when_the_key_does(items: Items, key: Seq<u8>, now: nat)
    ensures
        !present(items, key, now) <==> ttl_at(items, key, now) is None,
        present(items, key, now) ==> (ttl_at(items, key, now) == Some(None::<nat>)
            <==> items[key].expires_at is None),
        present(items, key, now) && items[key].expires_at is Some && items[key].expires_at->0
            <= now + MAX_NANOS ==> {
            &&& ttl_at(items, key, now) matches Some(Some(left))
            &&& now + left == items[key].expires_at->0
            &&& left > 0
        },
        present(items, key, now) && items[key].expires_at is Some && items[key].expires_at->0 > now
            + MAX_NANOS ==> ttl_at(items, key, now) == Some(Some(MAX_NANOS as nat)),
{
}

/// A sweep keeps a key exactly where it is present, and as it is.
pub proof fn law_a_sweep_keeps_what_is_present(items: Items, key: Seq<u8>, now: nat)
    ensures
        live(items, now).contains_key(key) <==> present(items, key, now),
        present(items, key, now) ==> live(items, now)[key] == items[key],
{
}

/// An item has expired once the moment for it has come, and not before.
pub proof fn law_an_item_expires_at_its_moment(value: Seq<u8>, deadline: nat, now: nat)
    ensures
        (Item { value, expires_at: Some(deadline) }).expired(now) <==> deadline <= now,
        !(Item { value, expires_at: None }).expired(now),
{
}

/// An entry holds what it was made of.
pub proof fn law_an_entry_holds_what_it_was_made_of(value: Vec<u8>, deadline: u128)
    ensures
        (Entry { value, expires_at: Some(deadline) })@ == (Item {
            value: value@,
            expires_at: Some(deadline as nat),
        }),
        (Entry { value, expires_at: None })@ == (Item { value: value@, expires_at: None }),
{
}

} // verus!
