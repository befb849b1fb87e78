use vstd::prelude::*;
use std::collections::HashSet;
use crate::unit::UnitId;
use vstd::std_specs::iter::IteratorSpec;

verus! {

broadcast use vstd::std_specs::hash::group_hash_axioms;

/// Camera movement keys held down this frame.
#[derive(Clone, Copy, Debug)]
pub struct KeyInput {
    pub w: bool,
    pub a: bool,
    pub s: bool,
    pub d: bool,
}

pub open spec fn key_value(down: bool) -> int {
    if down { 1 } else { 0 }
}

impl KeyInput {
    /// The direction the camera pans in, per axis: A moves towards −x and
    /// D towards +x, W towards −z and S towards +z; opposite keys cancel.
    pub fn pan_direction(&self) -> (r: (i8, i8))
        ensures
            r.0 == key_value(self.d) - key_value(self.a),
            r.1 == key_value(self.s) - key_value(self.w),
    {
        let mut dx: i8 = 0;
        let mut dz: i8 = 0;
        if self.w {
            dz = dz - 1;
        }
        if self.s {
            dz = dz + 1;
        }
        if self.a {
            dx = dx - 1;
        }
        if self.d {
            dx = dx + 1;
        }
        (dx, dz)
    }
}

/// The units the player has selected.
pub struct Selection(pub Vec<UnitId>);

impl Default for Selection {
    /// Nothing selected.
    fn default() -> (r: Self)
        ensures
            r.0@ == Seq::<UnitId>::empty(),
    {
        Selection(Vec::new())
    }
}

impl Selection {
    /// A click replaces the selection with the unit it picked; a click that
    /// picked none clears it.
    pub fn select(&mut self, picked: Option<UnitId>)
        ensures
            final(self).0@ == match picked {
                Some(u) => seq![u],
                None => Seq::<UnitId>::empty(),
            },
    {
        self.0.clear();
        match picked {
            Some(u) => {
                self.0.push(u);
                proof {
                    assert(self.0@ =~= seq![u]);
                }
            },
            None => {},
        }
    }
}

/// Ties a rendered entity to the simulation unit it shows.
#[derive(Clone, Copy, Debug)]
pub struct SimUnitId(pub UnitId);

/// Marks the entity of a selected unit.
#[derive(Clone, Copy, Debug)]
pub struct Selected;

/// Marks the light that follows the day/night cycle.
#[derive(Clone, Copy, Debug)]
pub struct DayNightLight;

/// Ties a rendered entity to the simulated creature it shows.
#[derive(Clone, Copy, Debug)]
pub struct GaiaTag(pub u32);

/// Ids of the simulation units that already have a rendered entity.
pub struct SpawnedUnits(pub HashSet<UnitId>);

/// Ids of the creatures that already have a rendered entity.
pub struct SpawnedGaia(pub HashSet<u32>);

impl Default for SpawnedUnits {
    /// No unit shown yet.
    fn default() -> (r: Self)
        ensures
            r.0@ == Set::<UnitId>::empty(),
    {
        SpawnedUnits(HashSet::new())
    }
}

impl Default for SpawnedGaia {
    /// No creature shown yet.
    fn default() -> (r: Self)
        ensures
            r.0@ == Set::<u32>::empty(),
    {
        SpawnedGaia(HashSet::new())
    }
}

impl SpawnedUnits {
    /// Records that unit `id` is shown. True when it was not shown before,
    /// that is, when an entity must be created for it.
    pub fn claim(&mut self, id: UnitId) -> (fresh: bool)
        ensures
            fresh == !old(self).0@.contains(id),
            final(self).0@ == old(self).0@.insert(id),
    {
        if self.0.contains(&id) {
            proof {
                assert(old(self).0@.insert(id) =~= old(self).0@);
            }
            false
        } else {
            self.0.insert(id);
            true
        }
    }

    /// Forgets unit `id`, whose entity was removed.
    pub fn release(&mut self, id: UnitId)
        ensures
            final(self).0@ == old(self).0@.remove(id),
    {
        self.0.remove(&id);
    }
}

impl SpawnedGaia {
    /// Records that creature `id` is shown. True when it was not shown
    /// before, that is, when an entity must be created for it.
    pub fn claim(&mut self, id: u32) -> (fresh: bool)
        ensures
            fresh == !old(self).0@.contains(id),
            final(self).0@ == old(self).0@.insert(id),
    {
        if self.0.contains(&id) {
            proof {
                assert(old(self).0@.insert(id) =~= old(self).0@);
            }
            false
        } else {
            self.0.insert(id);
            true
        }
    }
}


/// The ids of the units selected in the editor front end.
pub struct SelectionManager {
    selected: HashSet<u32>,
}

/// The sequence increases strictly.
pub open spec fn strictly_increasing(s: Seq<u32>) -> bool {
    forall|i: int, j: int| 0 <= i < j < s.len() ==> s[i] < s[j]
}

impl SelectionManager {
    /// The selected ids.
    pub closed spec fn ids(&self) -> Set<u32> {
        self.selected@
    }

    /// Nothing selected.
    pub fn new() -> (r: Self)
        ensures
            r.ids() == Set::<u32>::empty(),
    {
        SelectionManager { selected: HashSet::new() }
    }

    /// Deselects everything.
    pub fn clear(&mut self)
        ensures
            final(self).ids() == Set::<u32>::empty(),
    {
        self.selected.clear();
    }

    /// Selects unit `unit_id`.
    pub fn add(&mut self, unit_id: u32)
        ensures
            final(self).ids() == old(self).ids().insert(unit_id),
    {
        self.selected.insert(unit_id);
    }

    /// Deselects unit `unit_id`.
    pub fn remove(&mut self, unit_id: u32)
        ensures
            final(self).ids() == old(self).ids().remove(unit_id),
    {
        self.selected.remove(&unit_id);
    }

    /// Whether unit `unit_id` is selected.
    pub fn contains(&self, unit_id: u32) -> (r: bool)
        ensures
            r == self.ids().contains(unit_id),
    {
        self.selected.contains(&unit_id)
    }

    /// Number of selected units.
    pub fn count(&self) -> (r: i64)
        ensures
            r == self.ids().len() as i64,
    {
        self.selected.len() as i64
    }

    /// The selected ids in ascending order.
    pub fn get_all(&self) -> (r: Vec<i64>)
        ensures
            r@.len() == self.ids().len(),
            forall|i: int, j: int| 0 <= i < j < r@.len() ==> r@[i] < r@[j],
            forall|i: int| 0 <= i < r@.len() ==> 0 <= #[trigger] r@[i] <= u32::MAX && self.ids().contains(r@[i] as u32),
            forall|x: u32| #[trigger] self.ids().contains(x) ==> r@.contains(x as i64),
    {
        let mut ids: Vec<u32> = Vec::new();
        let ghost set = self.selected@;
        let ghost all = vstd::std_specs::hash::spec_hash_keys_iter(&self.selected).remaining().unref();
        for x in it: self.selected.iter()
            invariant
                set == self.selected@,
                all == vstd::std_specs::hash::spec_hash_keys_iter(&self.selected).remaining().unref(),
                it.seq().unref() == all,
                it.seq().unref().to_set() == set,
                it.seq().unref().no_duplicates(),
                it.seq().len() == set.len(),
                strictly_increasing(ids@),
                ids@.len() == it.index(),
                forall|y: u32| ids@.contains(y) <==> it.seq().unref().take(it.index()).contains(y),
        {
            let ghost idx = it.index();
            let ghost seen = it.seq().unref().take(idx);
            let v: u32 = *x;
            proof {
                assert(it.seq().unref()[idx] == v);
                if ids@.contains(v) {
                    let j = choose|j: int| 0 <= j < idx && seen[j] == v;
                    assert(it.seq().unref()[j] == v);
                }
            }
            let mut k: usize = 0;
            while k < ids.len() && ids[k] < v
                invariant
                    k <= ids@.len(),
                    forall|j: int| 0 <= j < k ==> ids@[j] < v,
                decreases ids@.len() - k,
            {
                k = k + 1;
            }
            let ghost before = ids@;
            ids.insert(k, v);
            proof {
                assert(!before.contains(v));
                assert(k < before.len() ==> before[k as int] > v) by {
                    if k < before.len() {
                        assert(before[k as int] >= v);
                        if before[k as int] == v {
                            assert(before.contains(v));
                        }
                    }
                }
                assert forall|i: int, j: int| 0 <= i < j < ids@.len() implies ids@[i] < ids@[j] by {
                    if j < k {
                        assert(ids@[i] == before[i] && ids@[j] == before[j]);
                    } else if j == k {
                        assert(ids@[i] == before[i]);
                    } else if i < k {
                        assert(ids@[i] == before[i] && ids@[j] == before[j - 1]);
                        assert(before[i] < v);
                    } else if i == k {
                        assert(ids@[j] == before[j - 1]);
                        if j - 1 > k {
                            assert(before[k as int] < before[j - 1]);
                        }
                    } else {
                        assert(ids@[i] == before[i - 1] && ids@[j] == before[j - 1]);
                    }
                }
                let seen2 = it.seq().unref().take(idx + 1);
                assert(seen2 =~= seen.push(v));
                assert forall|y: u32| ids@.contains(y) <==> seen2.contains(y) by {
                    if ids@.contains(y) {
                        let j = choose|j: int| 0 <= j < ids@.len() && ids@[j] == y;
                        if j < k {
                            assert(before[j] == y);
                            assert(before.contains(y));
                        } else if j > k {
                            assert(before[j - 1] == y);
                            assert(before.contains(y));
                        }
                        if y != v {
                            assert(seen.contains(y));
                            let m = choose|m: int| 0 <= m < seen.len() && seen[m] == y;
                            assert(seen2[m] == y);
                        } else {
                            assert(seen2[idx] == y);
                        }
                    }
                    if seen2.contains(y) {
                        let m = choose|m: int| 0 <= m < seen2.len() && seen2[m] == y;
                        if m < idx {
                            assert(seen[m] == y);
                            assert(seen.contains(y));
                            assert(before.contains(y));
                            let j = choose|j: int| 0 <= j < before.len() && before[j] == y;
                            if j < k {
                                assert(ids@[j] == y);
                            } else {
                                assert(ids@[j + 1] == y);
                            }
                        } else {
                            assert(ids@[k as int] == y);
                        }
                    }
                }
            }
        }
        proof {
            assert forall|y: u32| ids@.contains(y) <==> set.contains(y) by {
                assert(all.take(all.len() as int) =~= all);
            }
        }
        let mut out: Vec<i64> = Vec::new();
        let mut i: usize = 0;
        while i < ids.len()
            invariant
                set == self.selected@,
                forall|y: u32| ids@.contains(y) <==> set.contains(y),
                ids@.len() == set.len(),
                strictly_increasing(ids@),
                i <= ids@.len(),
                out@.len() == i,
                forall|j: int| 0 <= j < i ==> #[trigger] out@[j] == ids@[j] as i64,
            decreases ids@.len() - i,
        {
            out.push(ids[i] as i64);
            i = i + 1;
        }
        proof {
            assert forall|i: int| 0 <= i < out@.len() implies 0 <= #[trigger] out@[i] <= u32::MAX && set.contains(out@[i] as u32) by {
                assert(ids@.contains(ids@[i]));
            }
            assert forall|x: u32| #[trigger] set.contains(x) implies out@.contains(x as i64) by {
                assert(ids@.contains(x));
                let j = choose|j: int| 0 <= j < ids@.len() && ids@[j] == x;
                assert(out@[j] == x as i64);
            }
        }
        out
    }
}

} // verus!
