//! Search results: one `Hits` group per search invocation (the pattern
//! searched for and every match offset found, in ascending order), and the
//! per-file collection of groups with ordered navigation.

use vstd::prelude::*;

verus! {

/// The ordered match offsets of one search invocation.
#[derive(Clone, Debug, PartialEq, Eq)]
pub struct Hits {
    pub hits: Vec<u64>,
    pub flag: String,
    pub selected: usize,
}

/// Every hit group recorded for one file, newest last, with the group the
/// user is navigating.
#[derive(Clone, Debug, PartialEq, Eq)]
pub struct HHits {
    pub hits: Vec<Hits>,
    pub selected: usize,
}

impl Hits {
    /// The selected index stays inside the group (0 when it is empty).
    pub open spec fn wf(&self) -> bool {
        if self.hits@.len() == 0 {
            self.selected == 0
        } else {
            self.selected < self.hits@.len()
        }
    }

    pub fn new(flag: String) -> (r: Hits)
        ensures
            r.hits@.len() == 0,
            r.flag@ == flag@,
            r.selected == 0,
            r.wf(),
    {
        Hits { hits: Vec::new(), flag, selected: 0usize }
    }

    pub fn is_empty(&mut self) -> (r: bool)
        ensures
            *final(self) == *old(self),
            r == (old(self).hits@.len() == 0),
    {
        self.hits.is_empty()
    }
}

impl HHits {
    /// The selected group index stays inside the collection (0 when it is
    /// empty), and every group is well formed.
    pub open spec fn wf(&self) -> bool {
        &&& if self.hits@.len() == 0 {
            self.selected == 0
        } else {
            self.selected < self.hits@.len()
        }
        &&& forall|i: int| 0 <= i < self.hits@.len() ==> (#[trigger] self.hits@[i]).wf()
    }

    pub fn default() -> (r: HHits)
        ensures
            r.hits@.len() == 0,
            r.selected == 0,
            r.wf(),
    {
        HHits { hits: Vec::new(), selected: 0usize }
    }

    /// Appends a new hit group (groups accumulate, even for a repeated
    /// pattern).
    pub fn add(&mut self, hits: Hits)
        ensures
            final(self).hits@ == old(self).hits@.push(hits),
            final(self).selected == old(self).selected,
            old(self).wf() && hits.wf() ==> final(self).wf(),
    {
        self.hits.push(hits);
    }

    /// Steps the selected group's selection forward, wrapping at its end,
    /// and returns the newly selected match offset; `None` (and no change)
    /// when that group is empty.
    pub fn select_next_hit(&mut self) -> (r: Option<u64>)
        requires
            old(self).wf(),
            old(self).hits@.len() > 0,
        ensures
            final(self).wf(),
            final(self).selected == old(self).selected,
            final(self).hits@.len() == old(self).hits@.len(),
            forall|i: int|
                0 <= i < old(self).hits@.len() && i != old(self).selected
                    ==> final(self).hits@[i] == old(self).hits@[i],
            ({
                let g = old(self).hits@[old(self).selected as int];
                let gn = final(self).hits@[old(self).selected as int];
                if g.hits@.len() == 0 {
                    r is None && gn == g
                } else {
                    &&& gn.selected == (g.selected + 1) % (g.hits@.len() as int)
                    &&& gn.hits@ == g.hits@
                    &&& gn.flag@ == g.flag@
                    &&& r == Some(g.hits@[gn.selected as int])
                }
            }),
    {
        let sel = self.selected;
        let n = self.hits[sel].hits.len();
        if n > 0 {
            let ns = (self.hits[sel].selected + 1) % n;
            self.hits[sel].selected = ns;
            Some(self.hits[sel].hits[ns])
        } else {
            None
        }
    }

    /// Steps the selected group's selection backward, wrapping to its end,
    /// and returns the newly selected match offset; `None` (and no change)
    /// when that group is empty.
    pub fn select_prev_hit(&mut self) -> (r: Option<u64>)
        requires
            old(self).wf(),
            old(self).hits@.len() > 0,
        ensures
            final(self).wf(),
            final(self).selected == old(self).selected,
            final(self).hits@.len() == old(self).hits@.len(),
            forall|i: int|
                0 <= i < old(self).hits@.len() && i != old(self).selected
                    ==> final(self).hits@[i] == old(self).hits@[i],
            ({
                let g = old(self).hits@[old(self).selected as int];
                let gn = final(self).hits@[old(self).selected as int];
                if g.hits@.len() == 0 {
                    r is None && gn == g
                } else {
                    &&& gn.selected == (if g.selected > 0 {
                        g.selected - 1
                    } else {
                        g.hits@.len() - 1
                    })
                    &&& gn.hits@ == g.hits@
                    &&& gn.flag@ == g.flag@
                    &&& r == Some(g.hits@[gn.selected as int])
                }
            }),
    {
        let sel = self.selected;
        let n = self.hits[sel].hits.len();
        if n > 0 {
            let cur = self.hits[sel].selected;
            let ns = if cur > 0 {
                cur - 1
            } else {
                n - 1
            };
            self.hits[sel].selected = ns;
            Some(self.hits[sel].hits[ns])
        } else {
            None
        }
    }

    /// Selects the next group, wrapping at the end, and returns that group's
    /// currently selected match offset; `None` when the collection is empty
    /// or the newly selected group is.
    pub fn select_next_group(&mut self) -> (r: Option<u64>)
        requires
            old(self).wf(),
        ensures
            final(self).wf(),
            final(self).hits@ == old(self).hits@,
            old(self).hits@.len() == 0 ==> r is None && *final(self) == *old(self),
            old(self).hits@.len() > 0 ==> {
                let ns = (old(self).selected + 1) % (old(self).hits@.len() as int);
                let g = old(self).hits@[ns];
                &&& final(self).selected == ns
                &&& r == (if g.hits@.len() == 0 {
                    None::<u64>
                } else {
                    Some(g.hits@[g.selected as int])
                })
            },
    {
        if self.hits.len() > 0 {
            self.selected = (self.selected + 1) % self.hits.len();
            let g = &self.hits[self.selected];
            if g.hits.len() > 0 {
                return Some(g.hits[g.selected]);
            }
            None
        } else {
            None
        }
    }

    /// Selects the previous group, wrapping to the end, and returns that
    /// group's currently selected match offset; `None` when the collection
    /// is empty or the newly selected group is.
    pub fn select_prev_group(&mut self) -> (r: Option<u64>)
        requires
            old(self).wf(),
        ensures
            final(self).wf(),
            final(self).hits@ == old(self).hits@,
            old(self).hits@.len() == 0 ==> r is None && *final(self) == *old(self),
            old(self).hits@.len() > 0 ==> {
                let ns = if old(self).selected > 0 {
                    old(self).selected - 1
                } else {
                    old(self).hits@.len() - 1
                };
                let g = old(self).hits@[ns];
                &&& final(self).selected == ns
                &&& r == (if g.hits@.len() == 0 {
                    None::<u64>
                } else {
                    Some(g.hits@[g.selected as int])
                })
            },
    {
        if self.hits.len() > 0 {
            self.selected = if self.selected > 0 {
                self.selected - 1
            } else {
                self.hits.len() - 1
            };
            let g = &self.hits[self.selected];
            if g.hits.len() > 0 {
                return Some(g.hits[g.selected]);
            }
            None
        } else {
            None
        }
    }
}

} // verus!
