use vstd::prelude::*;

verus! {

/// Number of slots inside ring `r`: the centre slot plus rings `1..r`,
/// ring `j` holding `6 j` slots.
pub open spec fn ring_start(r: int) -> int {
    1 + 3 * r * (r - 1)
}

/// Slot number `k` is position `s.1` of ring `s.0`: rings are filled
/// outwards, ring `r` holding `6 r` slots.
pub open spec fn is_ring_slot(k: int, s: (usize, usize)) -> bool {
    &&& s.0 >= 1
    &&& s.1 < 6 * s.0
    &&& k == ring_start(s.0 as int) + s.1
}

proof fn lemma_ring_growth(r: int, count: int)
    requires
        1 <= r,
        ring_start(r) < count,
    ensures
        6 * r < count || r <= 2,
        ring_start(r + 1) == ring_start(r) + 6 * r,
{
    assert(ring_start(r + 1) == ring_start(r) + 6 * r) by (nonlinear_arith);
    if r >= 3 {
        assert(6 * r <= 3 * r * (r - 1)) by (nonlinear_arith)
            requires
                r >= 3,
        ;
    }
}

/// Places `count` units in concentric rings: slot 0 is the centre, then
/// ring 1 holds 6 slots, ring 2 holds 12, and so on outwards. Returns, for
/// each unit, its ring and its position within that ring (the centre is
/// `(0, 0)`); a ring is entered only when the previous one is full.
pub fn formation_slots(count: usize) -> (slots: Vec<(usize, usize)>)
    ensures
        slots@.len() == count,
        count > 0 ==> slots@[0] == (0usize, 0usize),
        forall|k: int| 1 <= k < count ==> is_ring_slot(k, #[trigger] slots@[k]),
{
    let mut slots: Vec<(usize, usize)> = Vec::new();
    if count == 0 {
        return slots;
    }
    slots.push((0, 0));
    let mut ring: usize = 1;
    while slots.len() < count
        invariant
            1 <= ring,
            1 <= slots@.len() <= count,
            slots@.len() < count ==> slots@.len() == ring_start(ring as int),
            slots@[0] == (0usize, 0usize),
            forall|k: int| 1 <= k < slots@.len() ==> is_ring_slot(k, #[trigger] slots@[k]),
        decreases count - slots@.len(),
    {
        proof {
            lemma_ring_growth(ring as int, count as int);
        }
        let slots_in_ring = 6 * ring;
        let mut i: usize = 0;
        while i < slots_in_ring && slots.len() < count
            invariant
                1 <= ring,
                slots_in_ring == 6 * ring,
                i <= slots_in_ring,
                1 <= slots@.len() <= count,
                slots@.len() == ring_start(ring as int) + i,
                slots@[0] == (0usize, 0usize),
                forall|k: int| 1 <= k < slots@.len() ==> is_ring_slot(k, #[trigger] slots@[k]),
            decreases slots_in_ring - i,
        {
            slots.push((ring, i));
            i = i + 1;
        }
        proof {
            lemma_ring_growth(ring as int, count as int);
        }
        ring = ring + 1;
    }
    slots
}

} // verus!
