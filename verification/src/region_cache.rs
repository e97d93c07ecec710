use vstd::prelude::*;

verus! {

/// The regions of a page that are in memory, each under its coordinates.
pub struct RegionCache<R> {
    /// The regions in memory with their coordinates, no coordinates twice.
    pub regions: Vec<(i32, i32, R)>,
    /// The folder that holds the page's region files.
    pub regions_path: String,
}

/// The region stored under (`rx`, `ry`), if any.
pub open spec fn lookup<R>(s: Seq<(i32, i32, R)>, rx: i32, ry: i32) -> Option<R>
    decreases s.len(),
{
    if s.len() == 0 {
        None
    } else if s.last().0 == rx && s.last().1 == ry {
        Some(s.last().2)
    } else {
        lookup(s.drop_last(), rx, ry)
    }
}

/// No coordinates are stored twice.
pub open spec fn keys_distinct<R>(s: Seq<(i32, i32, R)>) -> bool {
    forall|i: int, j: int|
        0 <= i < s.len() && 0 <= j < s.len() && i != j ==> (s[i].0 != s[j].0 || s[i].1 != s[j].1)
}

/// The stored region at position `i` is the one found under its coordinates.
pub proof fn lemma_lookup_at<R>(s: Seq<(i32, i32, R)>, i: int)
    requires
        keys_distinct(s),
        0 <= i < s.len(),
    ensures
        lookup(s, s[i].0, s[i].1) == Some(s[i].2),
    decreases s.len(),
{
    if i < s.len() - 1 {
        let t = s.drop_last();
        assert(keys_distinct(t)) by {
            assert forall|a: int, b: int| 0 <= a < t.len() && 0 <= b < t.len() && a != b implies (t[a].0 != t[b].0 || t[a].1 != t[b].1) by {
                assert(t[a] == s[a] && t[b] == s[b]);
            }
        }
        assert(t[i] == s[i]);
        lemma_lookup_at(t, i);
    }
}

/// Coordinates stored nowhere are found nowhere.
pub proof fn lemma_lookup_absent<R>(s: Seq<(i32, i32, R)>, rx: i32, ry: i32)
    requires
        forall|i: int| 0 <= i < s.len() ==> (s[i].0 != rx || s[i].1 != ry),
    ensures
        lookup(s, rx, ry) is None,
    decreases s.len(),
{
    if s.len() > 0 {
        let t = s.drop_last();
        assert forall|i: int| 0 <= i < t.len() implies (t[i].0 != rx || t[i].1 != ry) by {
            assert(t[i] == s[i]);
        }
        lemma_lookup_absent(t, rx, ry);
    }
}

impl<R> RegionCache<R> {
    /// The stored regions with their coordinates.
    pub open spec fn entries(self) -> Seq<(i32, i32, R)> {
        self.regions@
    }

    /// No region is stored twice.
    pub open spec fn wf(self) -> bool {
        keys_distinct(self.entries())
    }

    /// The region in memory at (`rx`, `ry`), if any.
    pub open spec fn region(self, rx: i32, ry: i32) -> Option<R> {
        lookup(self.entries(), rx, ry)
    }

    /// An empty cache for the regions stored under `regions_path`.
    pub fn new(regions_path: String) -> (r: Self)
        ensures
            r.wf(),
            r.entries().len() == 0,
            r.regions_path == regions_path,
            forall|rx: i32, ry: i32| r.region(rx, ry) is None,
    {
        RegionCache { regions: Vec::new(), regions_path }
    }

    fn position(&self, rx: i32, ry: i32) -> (r: Option<usize>)
        requires
            self.wf(),
        ensures
            match r {
                Some(i) => i < self.entries().len() && self.entries()[i as int].0 == rx
                    && self.entries()[i as int].1 == ry,
                None => forall|i: int|
                    0 <= i < self.entries().len() ==> (self.entries()[i].0 != rx
                        || self.entries()[i].1 != ry),
            },
    {
        let mut i: usize = 0;
        while i < self.regions.len()
            invariant
                0 <= i <= self.regions@.len(),
                forall|j: int|
                    0 <= j < i ==> (self.regions@[j].0 != rx || self.regions@[j].1 != ry),
            decreases self.regions@.len() - i,
        {
            if self.regions[i].0 == rx && self.regions[i].1 == ry {
                return Some(i);
            }
            i = i + 1;
        }
        None
    }

    /// Tells whether the region at (`rx`, `ry`) is in memory.
    pub fn contains_region(&self, rx: i32, ry: i32) -> (r: bool)
        requires
            self.wf(),
        ensures
            r == self.region(rx, ry) is Some,
    {
        match self.position(rx, ry) {
            Some(i) => {
                proof {
                    lemma_lookup_at(self.entries(), i as int);
                }
                true
            },
            None => {
                proof {
                    lemma_lookup_absent(self.entries(), rx, ry);
                }
                false
            },
        }
    }

    /// The region in memory at (`rx`, `ry`), if any.
    pub fn get_region(&self, rx: i32, ry: i32) -> (r: Option<&R>)
        requires
            self.wf(),
        ensures
            match r {
                Some(x) => self.region(rx, ry) == Some(*x),
                None => self.region(rx, ry) is None,
            },
    {
        match self.position(rx, ry) {
            Some(i) => {
                proof {
                    lemma_lookup_at(self.entries(), i as int);
                }
                Some(&self.regions[i].2)
            },
            None => {
                proof {
                    lemma_lookup_absent(self.entries(), rx, ry);
                }
                None
            },
        }
    }

    /// Keeps `region` in memory at (`rx`, `ry`) unless a region is there already, which
    /// stays; tells whether it was kept.
    pub fn insert_region(&mut self, rx: i32, ry: i32, region: R) -> (inserted: bool)
        requires
            old(self).wf(),
        ensures
            final(self).wf(),
            final(self).regions_path == old(self).regions_path,
            inserted == old(self).region(rx, ry) is None,
            final(self).region(rx, ry) == if inserted {
                Some(region)
            } else {
                old(self).region(rx, ry)
            },
            forall|qx: i32, qy: i32|
                !(qx == rx && qy == ry) ==> #[trigger] final(self).region(qx, qy) == old(self).region(qx, qy),
    {
        match self.position(rx, ry) {
            Some(i) => {
                proof {
                    lemma_lookup_at(self.entries(), i as int);
                }
                false
            },
            None => {
                proof {
                    lemma_lookup_absent(self.entries(), rx, ry);
                }
                let ghost before = self.regions@;
                self.regions.push((rx, ry, region));
                proof {
                    let s = self.regions@;
                    assert(s.drop_last() =~= before);
                    assert forall|i: int, j: int| 0 <= i < s.len() && 0 <= j < s.len() && i != j implies (s[i].0 != s[j].0 || s[i].1 != s[j].1) by {
                        if i < before.len() && j < before.len() {
                            assert(s[i] == before[i] && s[j] == before[j]);
                        } else if i < before.len() {
                            assert(s[i] == before[i]);
                        } else if j < before.len() {
                            assert(s[j] == before[j]);
                        }
                    }
                }
                true
            },
        }
    }

    /// The region in memory at (`rx`, `ry`), to change, if any.
    pub fn get_region_mut(&mut self, rx: i32, ry: i32) -> (r: Option<&mut R>)
        requires
            old(self).wf(),
        ensures
            final(self).regions_path == old(self).regions_path,
            match r {
                Some(x) => {
                    &&& old(self).region(rx, ry) == Some(*x)
                    &&& final(self).entries() == old(self).entries().update(
                        slot(old(self).entries(), rx, ry),
                        (rx, ry, *final(x)),
                    )
                },
                None => {
                    &&& old(self).region(rx, ry) is None
                    &&& *final(self) == *old(self)
                },
            },
    {
        match self.position(rx, ry) {
            Some(i) => {
                proof {
                    lemma_lookup_at(self.entries(), i as int);
                    lemma_slot(self.entries(), i as int);
                }
                let entry = &mut self.regions[i];
                Some(&mut entry.2)
            },
            None => {
                proof {
                    lemma_lookup_absent(self.entries(), rx, ry);
                }
                None
            },
        }
    }
}

/// The position where (`rx`, `ry`) is stored.
pub open spec fn slot<R>(s: Seq<(i32, i32, R)>, rx: i32, ry: i32) -> int {
    choose|i: int| 0 <= i < s.len() && s[i].0 == rx && s[i].1 == ry
}

pub proof fn lemma_slot<R>(s: Seq<(i32, i32, R)>, i: int)
    requires
        keys_distinct(s),
        0 <= i < s.len(),
    ensures
        slot(s, s[i].0, s[i].1) == i,
{
    let j = slot(s, s[i].0, s[i].1);
    assert(0 <= j < s.len() && s[j].0 == s[i].0 && s[j].1 == s[i].1);
}

/// Changing the region stored under some coordinates keeps the coordinates distinct,
/// finds the new region under them, and leaves the other coordinates as they were.
pub proof fn law_update_region<R>(s: Seq<(i32, i32, R)>, rx: i32, ry: i32, v: R)
    requires
        keys_distinct(s),
        lookup(s, rx, ry) is Some,
    ensures
        keys_distinct(s.update(slot(s, rx, ry), (rx, ry, v))),
        lookup(s.update(slot(s, rx, ry), (rx, ry, v)), rx, ry) == Some(v),
        forall|qx: i32, qy: i32|
            !(qx == rx && qy == ry) ==> #[trigger] lookup(s.update(slot(s, rx, ry), (rx, ry, v)), qx, qy)
                == lookup(s, qx, qy),
{
    if forall|i: int| 0 <= i < s.len() ==> (s[i].0 != rx || s[i].1 != ry) {
        lemma_lookup_absent(s, rx, ry);
    }
    let i = slot(s, rx, ry);
    let t = s.update(i, (rx, ry, v));
    assert(keys_distinct(t)) by {
        assert forall|a: int, b: int| 0 <= a < t.len() && 0 <= b < t.len() && a != b implies (t[a].0 != t[b].0 || t[b].1 != t[a].1) by {
            if a != i && b != i {
                assert(t[a] == s[a] && t[b] == s[b]);
            } else if a == i {
                assert(t[b] == s[b]);
            } else {
                assert(t[a] == s[a]);
            }
        }
    }
    lemma_lookup_at(t, i);
    assert forall|qx: i32, qy: i32| !(qx == rx && qy == ry) implies #[trigger] lookup(t, qx, qy) == lookup(s, qx, qy) by {
        lemma_lookup_other(s, i, v, qx, qy);
    }
}

/// Changing the region at position `i` does not change what other coordinates find.
pub proof fn lemma_lookup_other<R>(s: Seq<(i32, i32, R)>, i: int, v: R, qx: i32, qy: i32)
    requires
        0 <= i < s.len(),
        !(qx == s[i].0 && qy == s[i].1),
    ensures
        lookup(s.update(i, (s[i].0, s[i].1, v)), qx, qy) == lookup(s, qx, qy),
    decreases s.len(),
{
    let t = s.update(i, (s[i].0, s[i].1, v));
    if i < s.len() - 1 {
        assert(t.drop_last() =~= s.drop_last().update(i, (s[i].0, s[i].1, v)));
        assert(s.drop_last()[i] == s[i]);
        lemma_lookup_other(s.drop_last(), i, v, qx, qy);
    } else {
        assert(t.drop_last() =~= s.drop_last());
    }
}

} // verus!
