//! Bit masks over the slots of a pool.
//!
//! Slot `i` is bit `i % 64` of word `i / 64`.
use vstd::prelude::*;

verus! {

/// Bits in one machine word (`u64`).
const BITS_PER_WORD: usize = 64;

/// Largest number of slots a mask covers.
const MAX_SLOTS: usize = 4096;

/// Words needed for `MAX_SLOTS` bits.
const WORD_COUNT: usize = 64;

/// Bit `b` of word `w`.
pub open spec fn word_bit(w: u64, b: int) -> bool {
    (w >> (b as u64)) & 1u64 == 1u64
}

/// The slots whose bit is set in the words `bits`.
pub open spec fn set_slots(bits: Seq<u64>) -> Set<int> {
    Set::new(|i: int| 0 <= i < 4096 && word_bit(bits[i / 64], i % 64))
}

/// Whether `v` lists exactly the slots of `s`, in increasing order.
pub open spec fn lists_in_order(v: Seq<usize>, s: Set<int>) -> bool {
    &&& forall|a: int, b: int| 0 <= a < b < v.len() ==> v[a] < v[b]
    &&& forall|a: int| 0 <= a < v.len() ==> s.contains(v[a] as int)
    &&& forall|i: int| s.contains(i) ==> exists|a: int| 0 <= a < v.len() && v[a] == i
}

proof fn lemma_bit_or(w: u64, b: u64, c: u64)
    requires
        b < 64,
        c < 64,
    ensures
        ((w | (1u64 << b)) >> c) & 1u64 == 1u64 <==> (c == b || (w >> c) & 1u64 == 1u64),
{
    assert(((w | (1u64 << b)) >> c) & 1u64 == 1u64 <==> (c == b || (w >> c) & 1u64 == 1u64))
        by (bit_vector)
        requires b < 64u64, c < 64u64;
}

proof fn lemma_bit_and_not(w: u64, b: u64, c: u64)
    requires
        b < 64,
        c < 64,
    ensures
        ((w & !(1u64 << b)) >> c) & 1u64 == 1u64 <==> (c != b && (w >> c) & 1u64 == 1u64),
{
    assert(((w & !(1u64 << b)) >> c) & 1u64 == 1u64 <==> (c != b && (w >> c) & 1u64 == 1u64))
        by (bit_vector)
        requires b < 64u64, c < 64u64;
}

proof fn lemma_bit_test(w: u64, b: u64)
    requires
        b < 64,
    ensures
        (w & (1u64 << b)) != 0u64 <==> (w >> b) & 1u64 == 1u64,
{
    assert((w & (1u64 << b)) != 0u64 <==> (w >> b) & 1u64 == 1u64) by (bit_vector)
        requires b < 64u64;
}

proof fn lemma_zero_word(c: u64)
    ensures
        (0u64 >> c) & 1u64 != 1u64,
{
    assert((0u64 >> c) & 1u64 != 1u64) by (bit_vector);
}

proof fn lemma_slot_split(i: int)
    requires
        0 <= i < MAX_SLOTS,
    ensures
        0 <= i / 64 < 64,
        0 <= i % 64 < 64,
        i == (i / 64) * 64 + i % 64,
{
}

/// Setting bit `index` adds `index` to the set slots and leaves the others.
proof fn lemma_set_word(old_bits: Seq<u64>, new_bits: Seq<u64>, index: int)
    requires
        old_bits.len() == 64,
        0 <= index < MAX_SLOTS,
        new_bits == old_bits.update(index / 64, old_bits[index / 64] | (1u64 << ((index % 64) as u64))),
    ensures
        set_slots(new_bits) =~= set_slots(old_bits).insert(index),
{
    assert forall|i: int| #[trigger] set_slots(new_bits).contains(i) <==> set_slots(old_bits).insert(index).contains(i) by {
        if 0 <= i < MAX_SLOTS {
            lemma_slot_split(i);
            lemma_slot_split(index);
            if i / 64 == index / 64 {
                lemma_bit_or(old_bits[index / 64], (index % 64) as u64, (i % 64) as u64);
            }
        }
    }
}

/// Clearing bit `index` removes `index` from the set slots and leaves the others.
proof fn lemma_clear_word(old_bits: Seq<u64>, new_bits: Seq<u64>, index: int)
    requires
        old_bits.len() == 64,
        0 <= index < MAX_SLOTS,
        new_bits == old_bits.update(index / 64, old_bits[index / 64] & !(1u64 << ((index % 64) as u64))),
    ensures
        set_slots(new_bits) =~= set_slots(old_bits).remove(index),
{
    assert forall|i: int| #[trigger] set_slots(new_bits).contains(i) <==> set_slots(old_bits).remove(index).contains(i) by {
        if 0 <= i < MAX_SLOTS {
            lemma_slot_split(i);
            lemma_slot_split(index);
            if i / 64 == index / 64 {
                lemma_bit_and_not(old_bits[index / 64], (index % 64) as u64, (i % 64) as u64);
            }
        }
    }
}

/// Words that are all zero hold no slot.
proof fn lemma_zero_words(bits: Seq<u64>)
    requires
        bits.len() == 64,
        forall|k: int| 0 <= k < 64 ==> bits[k] == 0,
    ensures
        set_slots(bits) =~= Set::<int>::empty(),
{
    assert forall|i: int| !#[trigger] set_slots(bits).contains(i) by {
        if 0 <= i < MAX_SLOTS {
            lemma_slot_split(i);
            lemma_zero_word((i % 64) as u64);
        }
    }
}

/// Lists the set slots of `bits` in increasing order.
fn list_set_slots(bits: &[u64; WORD_COUNT]) -> (v: Vec<usize>)
    ensures
        lists_in_order(v@, set_slots(bits@)),
        forall|a: int| 0 <= a < v.len() ==> #[trigger] v@[a] < 4096,
{
    let mut v: Vec<usize> = Vec::new();
    let mut word_idx: usize = 0;
    while word_idx < WORD_COUNT
        invariant
            0 <= word_idx <= WORD_COUNT,
            bits@.len() == 64,
            forall|a: int, b: int| 0 <= a < b < v.len() ==> v@[a] < v@[b],
            forall|a: int| 0 <= a < v.len() ==> v@[a] < word_idx * 64 && set_slots(bits@).contains(v@[a] as int),
            forall|i: int| 0 <= i < word_idx * 64 && #[trigger] set_slots(bits@).contains(i)
                ==> exists|a: int| 0 <= a < v.len() && v@[a] == i,
        decreases WORD_COUNT - word_idx,
    {
        let word = bits[word_idx];
        let mut bit_idx: usize = 0;
        while bit_idx < BITS_PER_WORD
            invariant
                0 <= word_idx < WORD_COUNT,
                0 <= bit_idx <= BITS_PER_WORD,
                bits@.len() == 64,
                word == bits@[word_idx as int],
                forall|a: int, b: int| 0 <= a < b < v.len() ==> v@[a] < v@[b],
                forall|a: int| 0 <= a < v.len() ==> v@[a] < word_idx * 64 + bit_idx && set_slots(bits@).contains(v@[a] as int),
                forall|i: int| 0 <= i < word_idx * 64 + bit_idx && #[trigger] set_slots(bits@).contains(i)
                    ==> exists|a: int| 0 <= a < v.len() && v@[a] == i,
            decreases BITS_PER_WORD - bit_idx,
        {
            let ghost slot = word_idx * 64 + bit_idx;
            proof {
                lemma_bit_test(word, bit_idx as u64);
                lemma_slot_split(slot);
                assert(slot / 64 == word_idx as int && slot % 64 == bit_idx as int) by (nonlinear_arith)
                    requires slot == word_idx * 64 + bit_idx, 0 <= bit_idx < 64;
            }
            if word & (1u64 << bit_idx) != 0 {
                let ghost old_v = v@;
                v.push(word_idx * BITS_PER_WORD + bit_idx);
                proof {
                    assert(set_slots(bits@).contains(slot));
                    assert forall|i: int| 0 <= i < word_idx * 64 + bit_idx + 1 && #[trigger] set_slots(bits@).contains(i)
                        implies exists|a: int| 0 <= a < v.len() && v@[a] == i by {
                        if i == slot {
                            assert(v@[old_v.len() as int] == i);
                        } else {
                            let a = choose|a: int| 0 <= a < old_v.len() && old_v[a] == i;
                            assert(v@[a] == i);
                        }
                    }
                }
            } else {
                proof {
                    assert(!set_slots(bits@).contains(slot));
                }
            }
            bit_idx = bit_idx + 1;
        }
        word_idx = word_idx + 1;
    }
    v
}

/// Mask of pool slots whose chunk changed since the last copy.
pub struct DirtyMask {
    bits: [u64; WORD_COUNT],
}

impl View for DirtyMask {
    type V = Set<int>;

    /// The slots whose bit is set.
    closed spec fn view(&self) -> Set<int> {
        set_slots(self.bits@)
    }
}

impl DirtyMask {
    /// The largest slot index a mask covers, plus one.
    pub open spec fn capacity() -> int {
        4096
    }

    pub fn new() -> (m: Self)
        ensures
            m@ == Set::<int>::empty(),
    {
        let m = Self { bits: [0; WORD_COUNT] };
        proof {
            lemma_zero_words(m.bits@);
        }
        m
    }

    pub fn set(&mut self, index: usize)
        requires
            index < Self::capacity(),
        ensures
            final(self)@ == old(self)@.insert(index as int),
    {
        let ghost old_bits = self.bits@;
        let w = index / BITS_PER_WORD;
        let b = index % BITS_PER_WORD;
        self.bits[w] = self.bits[w] | (1u64 << b);
        proof {
            lemma_set_word(old_bits, self.bits@, index as int);
        }
    }

    pub fn is_set(&self, index: usize) -> (r: bool)
        requires
            index < Self::capacity(),
        ensures
            r == self@.contains(index as int),
    {
        proof {
            lemma_slot_split(index as int);
            lemma_bit_test(self.bits@[index as int / 64], (index % 64) as u64);
        }
        (self.bits[index / BITS_PER_WORD] & (1u64 << (index % BITS_PER_WORD))) != 0
    }

    pub fn clear(&mut self, index: usize)
        requires
            index < Self::capacity(),
        ensures
            final(self)@ == old(self)@.remove(index as int),
    {
        let ghost old_bits = self.bits@;
        let w = index / BITS_PER_WORD;
        let b = index % BITS_PER_WORD;
        self.bits[w] = self.bits[w] & !(1u64 << b);
        proof {
            lemma_clear_word(old_bits, self.bits@, index as int);
        }
    }

    pub fn clear_all(&mut self)
        ensures
            final(self)@ == Set::<int>::empty(),
    {
        self.bits = [0; WORD_COUNT];
        proof {
            lemma_zero_words(self.bits@);
        }
    }

    /// The set slots, in increasing order.
    pub fn iter_set(&self) -> (v: Vec<usize>)
        ensures
            lists_in_order(v@, self@),
            forall|a: int| 0 <= a < v.len() ==> #[trigger] v@[a] < 4096,
    {
        list_set_slots(&self.bits)
    }
}

impl Default for DirtyMask {
    fn default() -> (m: Self)
        ensures
            m@ == Set::<int>::empty(),
    {
        Self::new()
    }
}

/// Mask of pool slots that belong to the shadow window.
pub struct ShadowMask {
    bits: [u64; WORD_COUNT],
}

impl View for ShadowMask {
    type V = Set<int>;

    /// The slots whose bit is set.
    closed spec fn view(&self) -> Set<int> {
        set_slots(self.bits@)
    }
}

impl ShadowMask {
    /// The largest slot index a mask covers, plus one.
    pub open spec fn capacity() -> int {
        4096
    }

    pub fn new() -> (m: Self)
        ensures
            m@ == Set::<int>::empty(),
    {
        let m = Self { bits: [0; WORD_COUNT] };
        proof {
            lemma_zero_words(m.bits@);
        }
        m
    }

    pub fn set(&mut self, index: usize)
        requires
            index < Self::capacity(),
        ensures
            final(self)@ == old(self)@.insert(index as int),
    {
        let ghost old_bits = self.bits@;
        let w = index / BITS_PER_WORD;
        let b = index % BITS_PER_WORD;
        self.bits[w] = self.bits[w] | (1u64 << b);
        proof {
            lemma_set_word(old_bits, self.bits@, index as int);
        }
    }

    pub fn is_set(&self, index: usize) -> (r: bool)
        requires
            index < Self::capacity(),
        ensures
            r == self@.contains(index as int),
    {
        proof {
            lemma_slot_split(index as int);
            lemma_bit_test(self.bits@[index as int / 64], (index % 64) as u64);
        }
        (self.bits[index / BITS_PER_WORD] & (1u64 << (index % BITS_PER_WORD))) != 0
    }

    pub fn clear(&mut self, index: usize)
        requires
            index < Self::capacity(),
        ensures
            final(self)@ == old(self)@.remove(index as int),
    {
        let ghost old_bits = self.bits@;
        let w = index / BITS_PER_WORD;
        let b = index % BITS_PER_WORD;
        self.bits[w] = self.bits[w] & !(1u64 << b);
        proof {
            lemma_clear_word(old_bits, self.bits@, index as int);
        }
    }

    pub fn clear_all(&mut self)
        ensures
            final(self)@ == Set::<int>::empty(),
    {
        self.bits = [0; WORD_COUNT];
        proof {
            lemma_zero_words(self.bits@);
        }
    }

    /// The set slots, in increasing order.
    pub fn iter_set(&self) -> (v: Vec<usize>)
        ensures
            lists_in_order(v@, self@),
            forall|a: int| 0 <= a < v.len() ==> #[trigger] v@[a] < 4096,
    {
        list_set_slots(&self.bits)
    }
}

impl Default for ShadowMask {
    fn default() -> (m: Self)
        ensures
            m@ == Set::<int>::empty(),
    {
        Self::new()
    }
}

} // verus!
