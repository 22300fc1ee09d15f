//! The entries of a store, each under its own key.
use crate::duration::Duration;
use crate::index::{fingerprint, fingerprint_of, Index};
use vstd::prelude::*;

verus! {

/// A value, and the moment at which it expires, in nanoseconds on the store's
/// clock, if it does.
pub struct Entry {
    pub value: Vec<u8>,
    pub expires_at: Option<u128>,
}

/// What an [`Entry`] holds, as a mathematical value.
#[verifier::ext_equal]
pub struct Item {
    pub value: Seq<u8>,
    pub expires_at: Option<nat>,
}

impl Item {
    /// Whether the moment at which this item expires has come.
    pub open spec fn expired(self, now: nat) -> bool {
        self.expires_at matches Some(deadline) && deadline <= now
    }
}

/// The items that have not expired.
pub open spec fn live(items: Map<Seq<u8>, Item>, now: nat) -> Map<Seq<u8>, Item> {
    items.restrict(Set::new(|k: Seq<u8>| !items[k].expired(now)))
}

impl View for Entry {
    type V = Item;

    open spec fn view(&self) -> Item {
        Item {
            value: self.value@,
            expires_at: match self.expires_at {
                Some(deadline) => Some(deadline as nat),
                None => None,
            },
        }
    }
}

impl Entry {
    /// Whether the moment at which this entry expires has come.
    pub fn is_expired(&self, now: Duration) -> (r: bool)
        ensures
            r == self@.expired(now@),
    {
        match self.expires_at {
            Some(deadline) => deadline <= now.as_nanos(),
            None => false,
        }
    }
}

/// A key and its entry.
pub struct Slot {
    pub key: Vec<u8>,
    pub entry: Entry,
}

/// What the slots hold, as a map; of two slots with one key the last counts.
pub open spec fn contents(slots: Seq<Slot>) -> Map<Seq<u8>, Item>
    decreases slots.len(),
{
    if slots.len() == 0 {
        Map::empty()
    } else {
        contents(slots.drop_last()).insert(slots.last().key@, slots.last().entry@)
    }
}

/// Whether no key stands in two slots.
pub open spec fn distinct(slots: Seq<Slot>) -> bool {
    forall|i: int, j: int|
        0 <= i < j < slots.len() ==> #[trigger] slots[i].key@ != #[trigger] slots[j].key@
}

/// Distinct slots and the entries of the map correspond one to one.
pub proof fn lemma_contents(slots: Seq<Slot>)
    requires
        distinct(slots),
    ensures
        contents(slots).dom().finite(),
        contents(slots).len() == slots.len(),
        forall|i: int|
            0 <= i < slots.len() ==> contents(slots).contains_key(#[trigger] slots[i].key@)
                && contents(slots)[slots[i].key@] == slots[i].entry@,
        forall|k: Seq<u8>| #[trigger]
            contents(slots).contains_key(k) ==> exists|i: int|
                0 <= i < slots.len() && #[trigger] slots[i].key@ == k,
    decreases slots.len(),
{
    if slots.len() > 0 {
        let front = slots.drop_last();
        lemma_contents(front);
        let last = slots.last();
        assert(!contents(front).contains_key(last.key@)) by {
            if contents(front).contains_key(last.key@) {
                let i = choose|i: int|
                    0 <= i < front.len() && #[trigger] front[i].key@ == last.key@;
                assert(slots[i].key@ != slots[slots.len() - 1].key@);
            }
        }
        assert forall|i: int| 0 <= i < slots.len() implies contents(slots).contains_key(
            #[trigger] slots[i].key@,
        ) && contents(slots)[slots[i].key@] == slots[i].entry@ by {
            if i < front.len() {
                assert(front[i].key@ == slots[i].key@);
            }
        }
    }
}

/// Distinct slots hold a map, where each of them is in the map, and each key
/// of the map is in one of them.
proof fn lemma_same_contents(slots: Seq<Slot>, map: Map<Seq<u8>, Item>)
    requires
        distinct(slots),
        forall|i: int|
            0 <= i < slots.len() ==> map.contains_key(#[trigger] slots[i].key@)
                && map[slots[i].key@] == slots[i].entry@,
        forall|k: Seq<u8>| #[trigger]
            map.contains_key(k) ==> exists|i: int|
                0 <= i < slots.len() && #[trigger] slots[i].key@ == k,
    ensures
        contents(slots) == map,
{
    lemma_contents(slots);
}

/// Slots with distinct keys, and an index that finds them.
pub struct Table {
    slots: Vec<Slot>,
    index: Index,
}

impl View for Table {
    type V = Map<Seq<u8>, Item>;

    closed spec fn view(&self) -> Map<Seq<u8>, Item> {
        contents(self.slots@)
    }
}

/// Whether the index lists each slot under the fingerprint of its key, and
/// nothing else.
spec fn indexes(index: Set<(u64, usize)>, slots: Seq<Slot>) -> bool {
    forall|h: u64, p: usize| #[trigger]
        index.contains((h, p)) <==> p < slots.len() && h == fingerprint_of(slots[p as int].key@)
}

impl Table {
    /// Keys are distinct, and the index finds each slot.
    pub closed spec fn wf(&self) -> bool {
        &&& distinct(self.slots@)
        &&& self.index.wf()
        &&& indexes(self.index@, self.slots@)
    }

    /// A table of nothing.
    pub fn new() -> (r: Table)
        ensures
            r.wf(),
            r@ == Map::<Seq<u8>, Item>::empty(),
    {
        Table { slots: Vec::new(), index: Index::new() }
    }

    /// The number of entries.
    pub fn len(&self) -> (n: usize)
        requires
            self.wf(),
        ensures
            n == self@.len(),
            self@.dom().finite(),
    {
        proof {
            lemma_contents(self.slots@);
        }
        self.slots.len()
    }

    /// The position of the slot of a key.
    fn find(&self, key: &[u8]) -> (r: Option<usize>)
        requires
            self.wf(),
        ensures
            match r {
                Some(p) => p < self.slots@.len() && self.slots@[p as int].key@ == key@,
                None => !self@.contains_key(key@),
            },
    {
        let h = fingerprint(key);
        let positions = self.index.positions(h);
        let mut i: usize = 0;
        while i < positions.len()
            invariant
                i <= positions@.len(),
                self.wf(),
                h == fingerprint_of(key@),
                forall|p: usize| #[trigger]
                    positions@.contains(p) <==> self.index@.contains((h, p)),
                forall|k: int|
                    0 <= k < i ==> self.slots@[#[trigger] positions@[k] as int].key@ != key@,
            decreases positions@.len() - i,
        {
            let p = positions[i];
            assert(positions@.contains(p));
            if same_bytes(self.slots[p].key.as_slice(), key) {
                return Some(p);
            }
            i = i + 1;
        }
        proof {
            lemma_contents(self.slots@);
            if self@.contains_key(key@) {
                let j = choose|j: int|
                    0 <= j < self.slots@.len() && #[trigger] self.slots@[j].key@ == key@;
                assert(j < self.slots.len());
                assert(positions@.contains(j as usize));
                assert(positions@[positions@.index_of(j as usize)] == j as usize);
            }
        }
        None
    }

    /// The entry of a key.
    pub fn get(&self, key: &[u8]) -> (r: Option<&Entry>)
        requires
            self.wf(),
        ensures
            match r {
                Some(entry) => self@.contains_key(key@) && entry@ == self@[key@],
                None => !self@.contains_key(key@),
            },
    {
        match self.find(key) {
            Some(p) => {
                proof {
                    lemma_contents(self.slots@);
                }
                Some(&self.slots[p].entry)
            },
            None => None,
        }
    }

    /// Puts an entry under a key, in place of the one that is there, if any.
    pub fn insert(&mut self, key: Vec<u8>, entry: Entry)
        requires
            old(self).wf(),
        ensures
            final(self).wf(),
            final(self)@ == old(self)@.insert(key@, entry@),
    {
        let ghost before = self.slots@;
        proof {
            lemma_contents(before);
        }
        match self.find(key.as_slice()) {
            Some(p) => {
                self.slots[p] = Slot { key, entry };
                proof {
                    let after = self.slots@;
                    assert forall|i: int| 0 <= i < after.len() implies (#[trigger] after[i]).key@
                        == before[i].key@ by {}
                    lemma_contents(after);
                    let map = contents(before).insert(key@, entry@);
                    assert forall|k: Seq<u8>| #[trigger] map.contains_key(k) implies exists|i: int|
                        0 <= i < after.len() && #[trigger] after[i].key@ == k by {
                        if k != key@ {
                            let i = choose|i: int|
                                0 <= i < before.len() && #[trigger] before[i].key@ == k;
                            assert(after[i].key@ == k);
                        }
                    }
                }
            },
            None => {
                let h = fingerprint(key.as_slice());
                let p: usize = self.slots.len();
                self.slots.push(Slot { key, entry });
                self.index.insert(h, p);
                proof {
                    let after = self.slots@;
                    assert(after.drop_last() =~= before);
                    assert(distinct(after));
                }
            },
        }
    }

    /// Sets the moment at which the entry of a key expires. Returns whether
    /// there is one.
    pub fn set_deadline(&mut self, key: &[u8], deadline: u128) -> (r: bool)
        requires
            old(self).wf(),
        ensures
            final(self).wf(),
            r == old(self)@.contains_key(key@),
            final(self)@ == if r {
                let item = Item { expires_at: Some(deadline as nat), ..old(self)@[key@] };
                old(self)@.insert(key@, item)
            } else {
                old(self)@
            },
    {
        let ghost before = self.slots@;
        match self.find(key) {
            Some(p) => {
                self.slots[p].entry.expires_at = Some(deadline);
                proof {
                    lemma_contents(before);
                    let after = self.slots@;
                    let item = Item { expires_at: Some(deadline as nat), ..contents(before)[key@] };
                    let map = contents(before).insert(key@, item);
                    assert forall|k: Seq<u8>| #[trigger] map.contains_key(k) implies exists|i: int|
                        0 <= i < after.len() && #[trigger] after[i].key@ == k by {
                        let i = choose|i: int|
                            0 <= i < before.len() && #[trigger] before[i].key@ == k;
                        assert(after[i].key@ == k);
                    }
                    lemma_same_contents(after, map);
                }
                true
            },
            None => false,
        }
    }

    /// Removes the entry of a key. Returns whether there was one.
    pub fn remove(&mut self, key: &[u8]) -> (r: bool)
        requires
            old(self).wf(),
        ensures
            final(self).wf(),
            final(self)@ == old(self)@.remove(key@),
            r == old(self)@.contains_key(key@),
    {
        match self.find(key) {
            Some(p) => {
                proof {
                    lemma_contents(self.slots@);
                }
                self.remove_at(p);
                true
            },
            None => false,
        }
    }

    /// Removes the slot at a position; the last slot takes its place.
    fn remove_at(&mut self, p: usize)
        requires
            old(self).wf(),
            p < old(self).slots@.len(),
        ensures
            final(self).wf(),
            final(self)@ == old(self)@.remove(old(self).slots@[p as int].key@),
            final(self).slots@ == old(self).slots@.update(
                p as int,
                old(self).slots@.last(),
            ).drop_last(),
    {
        let ghost before = self.slots@;
        let last: usize = self.slots.len() - 1;
        let h = fingerprint(self.slots[p].key.as_slice());
        self.index.remove(h, p);
        if p < last {
            let moved = fingerprint(self.slots[last].key.as_slice());
            self.index.remove(moved, last);
            self.index.insert(moved, p);
        }
        self.slots.swap_remove(p);
        proof {
            let after = self.slots@;
            lemma_contents(before);
            lemma_contents(after);
            let map = contents(before).remove(before[p as int].key@);
            assert forall|k: Seq<u8>| #[trigger] map.contains_key(k) implies exists|i: int|
                0 <= i < after.len() && #[trigger] after[i].key@ == k by {
                let i = choose|i: int| 0 <= i < before.len() && #[trigger] before[i].key@ == k;
                let j = if i == last { p as int } else { i };
                assert(after[j].key@ == k);
            }
        }
    }

    /// Removes every entry that has expired, and returns how many those were.
    pub fn purge(&mut self, now: Duration) -> (removed: usize)
        requires
            old(self).wf(),
        ensures
            final(self).wf(),
            final(self)@ == live(old(self)@, now@),
            old(self)@.dom().finite(),
            removed == old(self)@.len() - final(self)@.len(),
    {
        let ghost before = self@;
        let start: usize = self.slots.len();
        proof {
            lemma_contents(self.slots@);
        }
        let mut i: usize = 0;
        while i < self.slots.len()
            invariant
                i <= self.slots@.len(),
                self.wf(),
                self@.submap_of(before),
                live(before, now@).submap_of(self@),
                forall|j: int| 0 <= j < i ==> !(#[trigger] self.slots@[j]).entry@.expired(now@),
                self.slots@.len() <= start,
            decreases self.slots@.len() - i,
        {
            proof {
                lemma_contents(self.slots@);
            }
            if self.slots[i].entry.is_expired(now) {
                self.remove_at(i);
            } else {
                i = i + 1;
            }
        }
        proof {
            lemma_contents(self.slots@);
            assert(forall|k: Seq<u8>| #[trigger]
                self@.contains_key(k) ==> live(before, now@).contains_key(k));
        }
        start - self.slots.len()
    }
}

/// Whether two keys are the same.
fn same_bytes(a: &[u8], b: &[u8]) -> (r: bool)
    ensures
        r == (a@ == b@),
{
    if a.len() != b.len() {
        return false;
    }
    let mut i: usize = 0;
    while i < a.len()
        invariant
            i <= a@.len(),
            a@.len() == b@.len(),
            a@.take(i as int) =~= b@.take(i as int),
        decreases a@.len() - i,
    {
        if a[i] != b[i] {
            return false;
        }
        i = i + 1;
    }
    assert(a@.take(i as int) =~= a@);
    assert(b@.take(i as int) =~= b@);
    true
}

} // verus!
