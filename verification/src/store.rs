//! An in-memory key-value store with per-key expiry.
use crate::duration::{elapsed_since, on_clock, Duration, MAX_NANOS};
use crate::table::{live, Entry, Item, Table};
use vstd::prelude::*;
use vstd::slice::slice_to_vec;

verus! {

/// What a store holds: under each key an item, with the moment at which it
/// expires, in nanoseconds on the store's clock.
pub type Items = Map<Seq<u8>, Item>;

/// Whether a key has an item that has not expired.
pub open spec fn present(items: Items, key: Seq<u8>, now: nat) -> bool {
    items.contains_key(key) && !items[key].expired(now)
}

/// The item of a value that is set with or without a time to live.
pub open spec fn fresh(value: Seq<u8>, ttl: Option<nat>, now: nat) -> Item {
    Item {
        value,
        expires_at: match ttl {
            Some(ttl) => Some(now + ttl),
            None => None,
        },
    }
}

/// The items after a key was set.
pub open spec fn after_set(
    items: Items,
    key: Seq<u8>,
    value: Seq<u8>,
    ttl: Option<nat>,
    now: nat,
) -> Items {
    items.insert(key, fresh(value, ttl, now))
}

/// The value that a read of a key finds.
pub open spec fn value_at(items: Items, key: Seq<u8>, now: nat) -> Option<Seq<u8>> {
    if present(items, key, now) {
        Some(items[key].value)
    } else {
        None
    }
}

/// The items after a read of a key, which removes what has expired under it.
pub open spec fn after_read(items: Items, key: Seq<u8>, now: nat) -> Items {
    if present(items, key, now) {
        items
    } else {
        items.remove(key)
    }
}

/// The items after a new time to live was given to a key.
pub open spec fn after_expire(items: Items, key: Seq<u8>, ttl: nat, now: nat) -> Items {
    if present(items, key, now) {
        items.insert(key, fresh(items[key].value, Some(ttl), now))
    } else {
        items
    }
}

/// The time that is left to a key, up to the longest span there is.
pub open spec fn ttl_at(items: Items, key: Seq<u8>, now: nat) -> Option<Option<nat>> {
    if present(items, key, now) {
        Some(
            match items[key].expires_at {
                Some(deadline) => Some(
                    if deadline - now <= MAX_NANOS {
                        (deadline - now) as nat
                    } else {
                        MAX_NANOS as nat
                    },
                ),
                None => None,
            },
        )
    } else {
        None
    }
}

/// An in-memory key-value store with per-key expiry.
///
/// Expired entries are removed lazily on access rather than by a background
/// sweep: callers who want active eviction can drive `purge_expired` on a
/// timer. Callers who share a store between threads put a lock around it.
///
/// A store's clock counts the nanoseconds since the store was made, and never
/// runs backwards. Each
/// operation that depends on the time has a form whose name ends in `_at`,
/// which takes the time as an argument.
pub struct Store {
    table: Table,
    origin: std::time::Instant,
    latest: Duration,
}

impl View for Store {
    type V = Items;

    /// The items that were set and not removed, expired or not.
    closed spec fn view(&self) -> Items {
        self.table@
    }
}

impl Store {
    #[verifier::type_invariant]
    spec fn wf(self) -> bool {
        self.table.wf()
    }

    /// The moment from which this store's clock counts.
    pub closed spec fn clock(&self) -> std::time::Instant {
        self.origin
    }

    /// The latest time that this store's clock has shown.
    pub closed spec fn time(&self) -> nat {
        self.latest@
    }

    /// An empty store, whose clock stands at nothing.
    pub fn new() -> (r: Store)
        ensures
            r@ == Items::empty(),
            r.time() == 0,
    {
        Store {
            table: Table::new(),
            origin: std::time::Instant::now(),
            latest: Duration::from_secs(0),
        }
    }

    /// The time on this store's clock, which never runs backwards.
    pub(crate) fn now(&mut self) -> (now: Duration)
        ensures
            on_clock(old(self).clock(), old(self).time(), now@),
            final(self).clock() == old(self).clock(),
            final(self).time() == now@,
            final(self)@ == old(self)@,
    {
        proof {
            use_type_invariant(&*self);
        }
        let now = self.peek();
        self.latest = now;
        now
    }

    /// The time on this store's clock, without a trace of it in the store.
    fn peek(&self) -> (now: Duration)
        ensures
            on_clock(self.clock(), self.time(), now@),
    {
        let reading = elapsed_since(&self.origin);
        if reading.as_nanos() < self.latest.as_nanos() {
            self.latest
        } else {
            reading
        }
    }

    /// Puts an entry under a key.
    fn put(&mut self, key: Vec<u8>, entry: Entry)
        ensures
            final(self).clock() == old(self).clock(),
            final(self).time() == old(self).time(),
            final(self)@ == old(self)@.insert(key@, entry@),
    {
        proof {
            use_type_invariant(&*self);
        }
        let mut table = Table::new();
        std::mem::swap(&mut table, &mut self.table);
        table.insert(key, entry);
        self.table = table;
    }

    /// Sets a key to a value that does not expire.
    pub fn set(&mut self, key: Vec<u8>, value: Vec<u8>)
        ensures
            final(self).clock() == old(self).clock(),
            final(self).time() == old(self).time(),
            final(self)@ == old(self)@.insert(key@, (Item { value: value@, expires_at: None })),
    {
        self.put(key, Entry { value, expires_at: None });
    }

    /// Sets a key to a value that expires when `ttl` has passed after `now`.
    pub fn set_with_ttl_at(&mut self, key: Vec<u8>, value: Vec<u8>, ttl: Duration, now: Duration)
        ensures
            final(self).clock() == old(self).clock(),
            final(self).time() == old(self).time(),
            final(self)@ == after_set(old(self)@, key@, value@, Some(ttl@), now@),
    {
        let deadline: u128 = now.as_nanos() + ttl.as_nanos();
        self.put(key, Entry { value, expires_at: Some(deadline) });
    }

    /// Sets a key to a value that expires when `ttl` has passed.
    pub fn set_with_ttl(&mut self, key: Vec<u8>, value: Vec<u8>, ttl: Duration)
        ensures
            final(self).clock() == old(self).clock(),
            on_clock(old(self).clock(), old(self).time(), final(self).time()),
            final(self)@ == after_set(old(self)@, key@, value@, Some(ttl@), final(self).time()),
    {
        let now = self.now();
        self.set_with_ttl_at(key, value, ttl, now);
    }

    /// The value of a key at the time `now`. An entry that has expired by
    /// then is removed.
    pub fn get_at(&mut self, key: &[u8], now: Duration) -> (r: Option<Vec<u8>>)
        ensures
            final(self).clock() == old(self).clock(),
            final(self).time() == old(self).time(),
            (match r {
                Some(value) => Some(value@),
                None => None,
            }) == value_at(old(self)@, key@, now@),
            final(self)@ == after_read(old(self)@, key@, now@),
    {
        proof {
            use_type_invariant(&*self);
        }
        match self.table.get(key) {
            Some(entry) => {
                if !entry.is_expired(now) {
                    return Some(slice_to_vec(entry.value.as_slice()));
                }
            },
            None => {
                return None;
            },
        }
        self.del(key);
        None
    }

    /// The value of a key. An entry that has expired is removed.
    pub fn get(&mut self, key: &[u8]) -> (r: Option<Vec<u8>>)
        ensures
            final(self).clock() == old(self).clock(),
            on_clock(old(self).clock(), old(self).time(), final(self).time()),
            final(self)@ == after_read(old(self)@, key@, final(self).time()),
            (match r {
                Some(value) => Some(value@),
                None => None,
            }) == value_at(old(self)@, key@, final(self).time()),
    {
        let now = self.now();
        self.get_at(key, now)
    }

    /// Removes a key. Returns whether it was there, expired or not.
    pub fn del(&mut self, key: &[u8]) -> (r: bool)
        ensures
            final(self).clock() == old(self).clock(),
            final(self).time() == old(self).time(),
            final(self)@ == old(self)@.remove(key@),
            r == old(self)@.contains_key(key@),
    {
        proof {
            use_type_invariant(&*self);
        }
        let mut table = Table::new();
        std::mem::swap(&mut table, &mut self.table);
        let r = table.remove(key);
        self.table = table;
        r
    }

    /// Whether a key has a value at the time `now`. An entry that has expired
    /// by then is removed.
    pub fn contains_key_at(&mut self, key: &[u8], now: Duration) -> (r: bool)
        ensures
            final(self).clock() == old(self).clock(),
            final(self).time() == old(self).time(),
            r == present(old(self)@, key@, now@),
            final(self)@ == after_read(old(self)@, key@, now@),
    {
        self.get_at(key, now).is_some()
    }

    /// Whether a key has a value. An entry that has expired is removed.
    pub fn contains_key(&mut self, key: &[u8]) -> (r: bool)
        ensures
            final(self).clock() == old(self).clock(),
            on_clock(old(self).clock(), old(self).time(), final(self).time()),
            final(self)@ == after_read(old(self)@, key@, final(self).time()),
            r == present(old(self)@, key@, final(self).time()),
    {
        let now = self.now();
        self.contains_key_at(key, now)
    }

    /// Sets a new expiry, `ttl` after `now`, on an existing key. Returns
    /// `false` if the key is absent or expired by then.
    pub fn expire_at(&mut self, key: &[u8], ttl: Duration, now: Duration) -> (r: bool)
        ensures
            final(self).clock() == old(self).clock(),
            final(self).time() == old(self).time(),
            r == present(old(self)@, key@, now@),
            final(self)@ == after_expire(old(self)@, key@, ttl@, now@),
    {
        proof {
            use_type_invariant(&*self);
        }
        match self.table.get(key) {
            Some(entry) => {
                if entry.is_expired(now) {
                    return false;
                }
            },
            None => {
                return false;
            },
        }
        let deadline: u128 = now.as_nanos() + ttl.as_nanos();
        let mut table = Table::new();
        std::mem::swap(&mut table, &mut self.table);
        let r = table.set_deadline(key, deadline);
        self.table = table;
        r
    }

    /// Sets a new expiry on an existing key. Returns `false` if the key is
    /// absent or already expired.
    pub fn expire(&mut self, key: &[u8], ttl: Duration) -> (r: bool)
        ensures
            final(self).clock() == old(self).clock(),
            on_clock(old(self).clock(), old(self).time(), final(self).time()),
            final(self)@ == after_expire(old(self)@, key@, ttl@, final(self).time()),
            r == present(old(self)@, key@, final(self).time()),
    {
        let now = self.now();
        self.expire_at(key, ttl, now)
    }

    /// Remaining time-to-live for a key at the time `now`: `Some(None)` for a
    /// key with no expiry set, `Some(Some(d))` for a key expiring in `d`,
    /// `None` if the key doesn't exist or has expired by then.
    pub fn ttl_at(&self, key: &[u8], now: Duration) -> (r: Option<Option<Duration>>)
        ensures
            (match r {
                Some(Some(d)) => Some(Some(d@)),
                Some(None) => Some(None),
                None => None,
            }) == ttl_at(self@, key@, now@),
    {
        proof {
            use_type_invariant(self);
        }
        match self.table.get(key) {
            Some(entry) => {
                if entry.is_expired(now) {
                    None
                } else {
                    match entry.expires_at {
                        Some(deadline) => {
                            let left: u128 = deadline - now.as_nanos();
                            Some(Some(Duration::from_nanos_saturating(left)))
                        },
                        None => Some(None),
                    }
                }
            },
            None => None,
        }
    }

    /// Remaining time-to-live for a key: `Some(None)` for a key with no
    /// expiry set, `Some(Some(d))` for a key expiring in `d`, `None` if the
    /// key doesn't exist (or is already expired).
    pub fn ttl(&self, key: &[u8]) -> (r: Option<Option<Duration>>)
        ensures
            exists|now: nat|
                {
                    &&& #[trigger] on_clock(self.clock(), self.time(), now)
                    &&& (match r {
                        Some(Some(d)) => Some(Some(d@)),
                        Some(None) => Some(None),
                        None => None,
                    }) == ttl_at(self@, key@, now)
                },
    {
        let now = self.peek();
        self.ttl_at(key, now)
    }

    /// The number of entries, of which some may have expired.
    pub fn len(&self) -> (n: usize)
        ensures
            self@.dom().finite(),
            n == self@.len(),
    {
        proof {
            use_type_invariant(self);
        }
        self.table.len()
    }

    /// Whether there is no entry.
    pub fn is_empty(&self) -> (r: bool)
        ensures
            r == (self@ == Items::empty()),
    {
        let n = self.len();
        proof {
            if n == 0 {
                assert(self@ =~= Items::empty());
            }
        }
        n == 0
    }

    /// Removes every entry.
    pub fn flush(&mut self)
        ensures
            final(self).clock() == old(self).clock(),
            final(self).time() == old(self).time(),
            final(self)@ == Items::empty(),
    {
        self.table = Table::new();
    }

    /// Sweeps all entries that have expired by the time `now` out of the
    /// store, and returns how many those were.
    pub fn purge_expired_at(&mut self, now: Duration) -> (removed: usize)
        ensures
            final(self).clock() == old(self).clock(),
            final(self).time() == old(self).time(),
            final(self)@ == live(old(self)@, now@),
            old(self)@.dom().finite(),
            removed == old(self)@.len() - final(self)@.len(),
    {
        proof {
            use_type_invariant(&*self);
        }
        let mut table = Table::new();
        std::mem::swap(&mut table, &mut self.table);
        let removed = table.purge(now);
        self.table = table;
        removed
    }

    /// Sweeps all currently-expired entries out of the store, and returns how
    /// many those were. Useful for a caller that wants to bound memory rather
    /// than rely purely on lazy eviction from `get`.
    pub fn purge_expired(&mut self) -> (removed: usize)
        ensures
            final(self).clock() == old(self).clock(),
            on_clock(old(self).clock(), old(self).time(), final(self).time()),
            final(self)@ == live(old(self)@, final(self).time()),
            old(self)@.dom().finite(),
            removed == old(self)@.len() - final(self)@.len(),
    {
        let now = self.now();
        self.purge_expired_at(now)
    }
}

impl Default for Store {
    fn default() -> (r: Store)
        ensures
            r@ == Items::empty(),
            r.time() == 0,
    {
        Store::new()
    }
}

} // verus!
