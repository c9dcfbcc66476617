//! The cache of the eight most recent match distances.
use vstd::prelude::*;

verus! {

/// The four bits of `order` at position `i`.
pub open spec fn nibble(order: u32, i: int) -> u32 {
    (order >> ((4 * i) as u32)) & 0xF
}

/// Each of the eight nibbles of `order` is below eight, and no two are alike.
pub open spec fn is_permutation(order: u32) -> bool {
    &&& forall|i: int| 0 <= i < 8 ==> #[trigger] nibble(order, i) < 8
    &&& forall|i: int, j: int|
        0 <= i < j < 8 ==> #[trigger] nibble(order, i) != #[trigger] nibble(order, j)
}

/// `s` with its entry `i` brought to the front.
pub open spec fn moved_to_front(s: Seq<u32>, i: int) -> Seq<u32> {
    Seq::new(
        s.len(),
        |j: int|
            if j == 0 {
                s[i]
            } else if j <= i {
                s[j - 1]
            } else {
                s[j]
            },
    )
}

/// `s` with `value` in front of its last entry but one; the last entry is dropped.
pub open spec fn with_recent(s: Seq<u32>, value: u32) -> Seq<u32> {
    s.update(7, s[6]).update(6, value)
}

/// `entries` in the order that the nibbles of `order` give.
pub open spec fn arranged(entries: Seq<u32>, order: u32) -> Seq<u32> {
    Seq::new(8, |i: int| entries[nibble(order, i) as int])
}

/// Eight distances and the order of their use, the most recent in the lowest nibble.
pub struct LruCache {
    pub entries: [u32; 8],
    pub order: u32,
}

impl View for LruCache {
    type V = Seq<u32>;

    /// The distances, the most recently used first.
    open spec fn view(&self) -> Seq<u32> {
        arranged(self.entries@, self.order)
    }
}

impl LruCache {
    pub open spec fn wf(&self) -> bool {
        is_permutation(self.order)
    }

    pub fn new() -> (r: Self)
        ensures
            r.wf(),
            r.order == 0x7654_3210,
            r.entries@ == Seq::new(8, |i: int| 1u32),
            r@ == Seq::new(8, |i: int| 1u32),
    {
        let r = LruCache { entries: [1, 1, 1, 1, 1, 1, 1, 1], order: 0x7654_3210 };
        proof {
            lemma_initial_order();
            assert(r.entries@ =~= Seq::new(8, |i: int| 1u32));
            assert(r@ =~= Seq::new(8, |i: int| 1u32));
        }
        r
    }

    /// Replaces the least recently used distance: the new one takes the last place but one.
    pub fn insert(&mut self, value: u32)
        requires
            old(self).wf(),
        ensures
            final(self).wf(),
            final(self).order == old(self).order,
            final(self)@ == with_recent(old(self)@, value),
    {
        let order: u32 = self.order;
        proof {
            assert(order >> 28 == (order >> 28) & 0xF) by (bit_vector);
            assert(nibble(order, 7) == (order >> 28) & 0xF);
            assert(nibble(order, 6) == (order >> 24) & 0xF);
        }
        let idx7: usize = (self.order >> 28) as usize;
        let idx6: usize = ((self.order >> 24) & 0xF) as usize;
        self.entries[idx7] = self.entries[idx6];
        self.entries[idx6] = value;
        assert(self@ =~= with_recent(old(self)@, value));
    }

    /// Returns the distance at recency `index` and makes it the most recent one.
    pub fn hit(&mut self, index: u32) -> (r: u32)
        requires
            old(self).wf(),
            index < 8,
        ensures
            final(self).wf(),
            final(self).entries@ == old(self).entries@,
            r == old(self)@[index as int],
            final(self)@ == moved_to_front(old(self)@, index as int),
            nibble(final(self).order, 0) == nibble(old(self).order, index as int),
            forall|k: int|
                0 < k <= index ==> #[trigger] nibble(final(self).order, k) == nibble(
                    old(self).order,
                    k - 1,
                ),
            forall|k: int|
                index < k < 8 ==> #[trigger] nibble(final(self).order, k) == nibble(
                    old(self).order,
                    k,
                ),
    {
        let ghost before = self.order;
        let slot: u32 = (self.order >> (index * 4)) & 0xF;
        let rotate_mask: u32 = (16u32.wrapping_shl(index * 4)).wrapping_sub(1);
        let rotated: u32 = ((self.order << 4) | slot) & rotate_mask;
        self.order = (self.order & !rotate_mask) | rotated;
        proof {
            assert(index * 4 == 4 * index);
            assert(slot == nibble(before, index as int));
            lemma_rotated(before, index, rotate_mask, self.order);
            lemma_hit(self.entries@, before, index, self.order);
            assert forall|k: int| 0 <= k < 8 implies #[trigger] nibble(self.order, k) == nibble(
                before,
                source(index, k),
            ) by {
                lemma_rotated_at(before, index, self.order, k);
            }
            assert(self@ == arranged(self.entries@, self.order));
            assert(old(self)@ == arranged(self.entries@, before));
        }
        self.entries[slot as usize]
    }
}

/// Eight nibbles make up an order: two orders with the same nibbles are the same.
pub proof fn law_nibbles_make_up_order(a: u32, b: u32)
    requires
        forall|i: int| 0 <= i < 8 ==> #[trigger] nibble(a, i) == nibble(b, i),
    ensures
        a == b,
{
    assert(nibble(a, 0) == nibble(b, 0) && nibble(a, 1) == nibble(b, 1) && nibble(a, 2) == nibble(
        b,
        2,
    ) && nibble(a, 3) == nibble(b, 3) && nibble(a, 4) == nibble(b, 4) && nibble(a, 5) == nibble(
        b,
        5,
    ) && nibble(a, 6) == nibble(b, 6) && nibble(a, 7) == nibble(b, 7));
    assert(a == b) by (bit_vector)
        requires
            (a >> 0u32) & 0xF == (b >> 0u32) & 0xF,
            (a >> 4u32) & 0xF == (b >> 4u32) & 0xF,
            (a >> 8u32) & 0xF == (b >> 8u32) & 0xF,
            (a >> 12u32) & 0xF == (b >> 12u32) & 0xF,
            (a >> 16u32) & 0xF == (b >> 16u32) & 0xF,
            (a >> 20u32) & 0xF == (b >> 20u32) & 0xF,
            (a >> 24u32) & 0xF == (b >> 24u32) & 0xF,
            (a >> 28u32) & 0xF == (b >> 28u32) & 0xF,
    ;
}

proof fn lemma_initial_order()
    ensures
        is_permutation(0x7654_3210u32),
        forall|i: int| 0 <= i < 8 ==> #[trigger] nibble(0x7654_3210u32, i) == i,
{
    let order = 0x7654_3210u32;
    assert((order >> 0u32) & 0xF == 0 && (order >> 4u32) & 0xF == 1 && (order >> 8u32) & 0xF == 2
        && (order >> 12u32) & 0xF == 3 && (order >> 16u32) & 0xF == 4 && (order >> 20u32) & 0xF == 5
        && (order >> 24u32) & 0xF == 6 && (order >> 28u32) & 0xF == 7) by (bit_vector)
        requires
            order == 0x7654_3210u32,
    ;
    assert forall|i: int| 0 <= i < 8 implies #[trigger] nibble(order, i) == i by {
        if i == 0 {
        } else if i == 1 {
        } else if i == 2 {
        } else if i == 3 {
        } else if i == 4 {
        } else if i == 5 {
        } else if i == 6 {
        } else {
        }
    }
}

/// What a rotation of the lowest `index + 1` nibbles does to each nibble.
spec fn rotated_nibbles(before: u32, index: u32, after: u32) -> bool {
    &&& nibble(after, 0) == nibble(before, index as int)
    &&& nibble(after, 1) == nibble(before, if 1 <= index { 0 } else { 1 })
    &&& nibble(after, 2) == nibble(before, if 2 <= index { 1 } else { 2 })
    &&& nibble(after, 3) == nibble(before, if 3 <= index { 2 } else { 3 })
    &&& nibble(after, 4) == nibble(before, if 4 <= index { 3 } else { 4 })
    &&& nibble(after, 5) == nibble(before, if 5 <= index { 4 } else { 5 })
    &&& nibble(after, 6) == nibble(before, if 6 <= index { 5 } else { 6 })
    &&& nibble(after, 7) == nibble(before, if 7 <= index { 6 } else { 7 })
}

proof fn lemma_rotated(before: u32, index: u32, mask: u32, after: u32)
    requires
        index < 8,
        mask == vstd::wrapping::u32_specs::wrapping_sub(16u32 << ((4 * index) as u32), 1),
        after == (before & !mask) | (((before << 4) | nibble(before, index as int)) & mask),
    ensures
        rotated_nibbles(before, index, after),
{
    let s = (4 * index) as u32;
    lemma_rotated_bits(before, index, s, 16u32 << s, mask, after);
}

proof fn lemma_rotated_bits(
    before: u32,
    index: u32,
    s: u32,
    top: u32,
    mask: u32,
    after: u32,
)
    by (bit_vector)
    requires
        index < 8,
        s == 4 * index,
        top == 16u32 << s,
        mask == (if top < 1 { 0xFFFF_FFFFu32 } else { (top - 1) as u32 }),
        after == (before & !mask) | (((before << 4) | ((before >> s) & 0xF)) & mask),
    ensures
        (after >> 0u32) & 0xF == (before >> s) & 0xF,
        (after >> 4u32) & 0xF == (before >> (if 1 <= index { 0u32 } else { 4u32 })) & 0xF,
        (after >> 8u32) & 0xF == (before >> (if 2 <= index { 4u32 } else { 8u32 })) & 0xF,
        (after >> 12u32) & 0xF == (before >> (if 3 <= index { 8u32 } else { 12u32 })) & 0xF,
        (after >> 16u32) & 0xF == (before >> (if 4 <= index { 12u32 } else { 16u32 })) & 0xF,
        (after >> 20u32) & 0xF == (before >> (if 5 <= index { 16u32 } else { 20u32 })) & 0xF,
        (after >> 24u32) & 0xF == (before >> (if 6 <= index { 20u32 } else { 24u32 })) & 0xF,
        (after >> 28u32) & 0xF == (before >> (if 7 <= index { 24u32 } else { 28u32 })) & 0xF,
{
}

/// Where the nibble at `i` stood before the rotation.
spec fn source(index: u32, i: int) -> int {
    if i == 0 {
        index as int
    } else if i <= index {
        i - 1
    } else {
        i
    }
}

proof fn lemma_hit(entries: Seq<u32>, before: u32, index: u32, after: u32)
    requires
        index < 8,
        is_permutation(before),
        rotated_nibbles(before, index, after),
    ensures
        is_permutation(after),
        arranged(entries, after) == moved_to_front(arranged(entries, before), index as int),
{
    assert forall|i: int| 0 <= i < 8 implies #[trigger] nibble(after, i) == nibble(
        before,
        source(index, i),
    ) && 0 <= source(index, i) < 8 by {
        lemma_rotated_at(before, index, after, i);
    }
    assert forall|i: int, j: int| 0 <= i < j < 8 implies #[trigger] nibble(after, i)
        != #[trigger] nibble(after, j) by {
        let a = source(index, i);
        let b = source(index, j);
        assert(a != b);
        if a < b {
            assert(nibble(before, a) != nibble(before, b));
        } else {
            assert(nibble(before, b) != nibble(before, a));
        }
    }
    assert(arranged(entries, after) =~= moved_to_front(arranged(entries, before), index as int));
}

proof fn lemma_rotated_at(before: u32, index: u32, after: u32, i: int)
    requires
        index < 8,
        rotated_nibbles(before, index, after),
        0 <= i < 8,
    ensures
        nibble(after, i) == nibble(before, source(index, i)),
{
    if i == 0 {
    } else if i == 1 {
    } else if i == 2 {
    } else if i == 3 {
    } else if i == 4 {
    } else if i == 5 {
    } else if i == 6 {
    } else {
    }
}

} // verus!
