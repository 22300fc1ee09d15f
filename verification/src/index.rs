//! An index from fingerprints of keys to the positions of their slots.
use std::collections::HashMap;
use vstd::prelude::*;

verus! {

/// The basis of the FNV-1a hash.
pub const FNV_OFFSET: u64 = 0xcbf2_9ce4_8422_2325;

/// The prime of the FNV-1a hash.
pub const FNV_PRIME: u64 = 0x0000_0100_0000_01b3;

/// The FNV-1a hash of a key.
pub open spec fn fingerprint_of(key: Seq<u8>) -> u64
    decreases key.len(),
{
    if key.len() == 0 {
        FNV_OFFSET
    } else {
        (fingerprint_of(key.drop_last()) ^ (key.last() as u64)).wrapping_mul(FNV_PRIME)
    }
}

/// The FNV-1a hash of a key.
pub fn fingerprint(key: &[u8]) -> (h: u64)
    ensures
        h == fingerprint_of(key@),
{
    let mut h: u64 = FNV_OFFSET;
    let mut i: usize = 0;
    while i < key.len()
        invariant
            i <= key@.len(),
            h == fingerprint_of(key@.take(i as int)),
        decreases key@.len() - i,
    {
        assert(key@.take(i + 1).drop_last() =~= key@.take(i as int));
        h = (h ^ (key[i] as u64)).wrapping_mul(FNV_PRIME);
        i = i + 1;
    }
    assert(key@.take(key@.len() as int) =~= key@);
    h
}

/// A set of pairs of a fingerprint and a position, which lists the positions
/// of a fingerprint fast.
pub struct Index {
    buckets: HashMap<u64, Vec<usize>>,
}

impl View for Index {
    type V = Set<(u64, usize)>;

    closed spec fn view(&self) -> Set<(u64, usize)> {
        Set::new(
            |pair: (u64, usize)|
                self.buckets@.contains_key(pair.0) && self.buckets@[pair.0]@.contains(pair.1),
        )
    }
}

impl Index {
    /// No position is listed twice under one fingerprint.
    pub closed spec fn wf(&self) -> bool {
        forall|h: u64| #[trigger]
            self.buckets@.contains_key(h) ==> self.buckets@[h]@.no_duplicates()
    }

    /// An index of nothing.
    pub fn new() -> (r: Index)
        ensures
            r.wf(),
            r@ == Set::<(u64, usize)>::empty(),
    {
        let r = Index { buckets: HashMap::new() };
        r
    }

    /// The positions of a fingerprint.
    pub fn positions(&self, h: u64) -> (r: &[usize])
        ensures
            forall|p: usize| #[trigger] r@.contains(p) <==> self@.contains((h, p)),
    {
        match self.buckets.get(&h) {
            Some(bucket) => bucket.as_slice(),
            None => {
                let none: &[usize] = &[];
                none
            },
        }
    }

    /// Adds a pair that is not there.
    pub fn insert(&mut self, h: u64, p: usize)
        requires
            old(self).wf(),
            !old(self)@.contains((h, p)),
        ensures
            final(self).wf(),
            final(self)@ == old(self)@.insert((h, p)),
    {
        let mut bucket: Vec<usize> = match self.buckets.remove(&h) {
            Some(bucket) => bucket,
            None => Vec::new(),
        };
        let ghost before = bucket@;
        bucket.push(p);
        self.buckets.insert(h, bucket);
        proof {
            let after = before.push(p);
            assert forall|q: usize| #[trigger]
                after.contains(q) <==> before.contains(q) || q == p by {
                if before.contains(q) {
                    assert(after[before.index_of(q)] == q);
                }
                assert(after[before.len() as int] == p);
            }
        }
    }

    /// Removes a pair that is there.
    pub fn remove(&mut self, h: u64, p: usize)
        requires
            old(self).wf(),
            old(self)@.contains((h, p)),
        ensures
            final(self).wf(),
            final(self)@ == old(self)@.remove((h, p)),
    {
        if let Some(mut bucket) = self.buckets.remove(&h) {
            let ghost before = bucket@;
            let mut i: usize = 0;
            while i < bucket.len() && bucket[i] != p
                invariant
                    i <= bucket@.len(),
                    bucket@ == before,
                    forall|k: int| 0 <= k < i ==> before[k] != p,
                decreases bucket@.len() - i,
            {
                i = i + 1;
            }
            bucket.swap_remove(i);
            let ghost after = bucket@;
            proof {
                assert forall|q: usize| #[trigger] after.contains(q) <==> before.contains(q) && q
                    != p by {
                    if after.contains(q) {
                        let k = after.index_of(q);
                    }
                    if before.contains(q) && q != p {
                        let k = before.index_of(q);
                        if k == before.len() - 1 {
                            assert(after[i as int] == q);
                        } else {
                            assert(after[k] == q);
                        }
                    }
                }
            }
            if bucket.len() > 0 {
                self.buckets.insert(h, bucket);
            }
        }
    }
}

} // verus!
