//! Map from chunk coordinates to slot indices, kept in a `HashMap` keyed by
//! the pair of coordinates packed into one `u128`.
use vstd::prelude::*;
use std::collections::HashMap;

verus! {

/// Offset that takes an `i64` to `0 .. 2^64`.
pub open spec fn shifted(v: i64) -> int {
    v - i64::MIN
}

/// The pair `(x, z)` packed into one integer: `x` in the high 64 bits and
/// `z` in the low 64 bits, both shifted to be non-negative.
pub open spec fn pack_key(key: (i64, i64)) -> u128 {
    (shifted(key.0) * 0x1_0000_0000_0000_0000 + shifted(key.1)) as u128
}

/// Packing keeps the value in range, and two keys pack alike only when
/// they are equal.
pub proof fn lemma_pack_key_injective(a: (i64, i64), b: (i64, i64))
    ensures
        pack_key(a) == shifted(a.0) * 0x1_0000_0000_0000_0000 + shifted(a.1),
        pack_key(a) == pack_key(b) ==> a == b,
{
    assert(0 <= shifted(a.0) < 0x1_0000_0000_0000_0000);
    assert(0 <= shifted(a.1) < 0x1_0000_0000_0000_0000);
    assert(0 <= shifted(b.0) < 0x1_0000_0000_0000_0000);
    assert(0 <= shifted(b.1) < 0x1_0000_0000_0000_0000);
}

/// Map from chunk coordinates to slot indices.
pub struct ChunkSlotMap {
    slots: HashMap<u128, usize>,
}

impl View for ChunkSlotMap {
    type V = Map<(i64, i64), usize>;

    closed spec fn view(&self) -> Map<(i64, i64), usize> {
        Map::new(
            |k: (i64, i64)| self.slots@.contains_key(pack_key(k)),
            |k: (i64, i64)| self.slots@[pack_key(k)],
        )
    }
}

impl ChunkSlotMap {
    /// Every entry of the table is stored under a packed chunk coordinate.
    pub closed spec fn wf(&self) -> bool {
        forall|p: u128| #[trigger] self.slots@.contains_key(p) ==> exists|k: (i64, i64)| pack_key(k) == p
    }

    /// Every value of the map lies below `bound`.
    pub open spec fn values_below(&self, bound: int) -> bool {
        forall|k: (i64, i64)| #[trigger] self@.contains_key(k) ==> self@[k] < bound
    }

    pub fn new() -> (m: Self)
        ensures
            m.wf(),
            m@ == Map::<(i64, i64), usize>::empty(),
    {
        let m = Self { slots: HashMap::new() };
        assert(m@ =~= Map::<(i64, i64), usize>::empty());
        m
    }

    /// The packed form of `key` (see `pack_key`).
    fn pack(key: (i64, i64)) -> (r: u128)
        ensures
            r == pack_key(key),
    {
        proof {
            lemma_pack_key_injective(key, key);
        }
        let high = (key.0 as i128 - i64::MIN as i128) as u128;
        let low = (key.1 as i128 - i64::MIN as i128) as u128;
        high * 0x1_0000_0000_0000_0000u128 + low
    }

    /// The slot of `key`, if it has one.
    pub fn get(&self, key: (i64, i64)) -> (r: Option<usize>)
        requires
            self.wf(),
        ensures
            r == (if self@.contains_key(key) { Some(self@[key]) } else { None::<usize> }),
    {
        let p = Self::pack(key);
        match self.slots.get(&p) {
            Some(slot) => Some(*slot),
            None => None,
        }
    }

    /// Maps `key` to `slot`, replacing any slot it had.
    pub fn insert(&mut self, key: (i64, i64), slot: usize)
        requires
            old(self).wf(),
        ensures
            final(self).wf(),
            final(self)@ == old(self)@.insert(key, slot),
    {
        let p = Self::pack(key);
        let ghost before = self.slots@;
        let _ = self.slots.insert(p, slot);
        proof {
            assert forall|q: u128| #[trigger] self.slots@.contains_key(q) implies exists|k: (i64, i64)| pack_key(k) == q by {
                if q == p {
                    assert(pack_key(key) == q);
                } else {
                    assert(before.contains_key(q));
                }
            }
            assert forall|k: (i64, i64)| #[trigger] self@.contains_key(k) <==> old(self)@.insert(key, slot).contains_key(k) by {
                lemma_pack_key_injective(k, key);
            }
            assert forall|k: (i64, i64)| #[trigger] self@.contains_key(k) implies self@[k] == old(self)@.insert(key, slot)[k] by {
                lemma_pack_key_injective(k, key);
            }
            assert(self@ =~= old(self)@.insert(key, slot));
        }
    }

    /// Removes `key` and its slot, if it has one.
    pub fn remove(&mut self, key: (i64, i64))
        requires
            old(self).wf(),
        ensures
            final(self).wf(),
            final(self)@ == old(self)@.remove(key),
    {
        let p = Self::pack(key);
        let ghost before = self.slots@;
        let _ = self.slots.remove(&p);
        proof {
            assert(self.slots@ == before.remove(p));
            assert forall|q: u128| #[trigger] self.slots@.contains_key(q) implies exists|k: (i64, i64)| pack_key(k) == q by {
                assert(before.contains_key(q));
            }
            assert forall|k: (i64, i64)| #[trigger] self@.contains_key(k) <==> old(self)@.remove(key).contains_key(k) by {
                lemma_pack_key_injective(k, key);
            }
            assert forall|k: (i64, i64)| #[trigger] self@.contains_key(k) implies self@[k] == old(self)@.remove(key)[k] by {
                lemma_pack_key_injective(k, key);
            }
            assert(self@ =~= old(self)@.remove(key));
        }
    }
}

} // verus!
