//! The patch overlay: an ordered mapping from absolute file offset to a
//! replacement byte run, holding every edit not yet committed to disk.
//! A later write to an offset supersedes the earlier run entirely.

use vstd::prelude::*;

use crate::data::Data;

verus! {

/// True when the run `e` replaces the byte at absolute position `i`.
pub open spec fn covers(e: Data, i: int) -> bool {
    e.offset <= i < e.offset + e.data@.len()
}

/// The replacement byte at absolute position `i` contributed by the entries
/// of `s` whose offset lies in `[lo, hi)`, where an entry later in `s`
/// supersedes an earlier one; `None` when no such entry covers `i`.
pub open spec fn overlay_byte(s: Seq<Data>, lo: int, hi: int, i: int) -> Option<u8>
    decreases s.len(),
{
    if s.len() == 0 {
        None
    } else if lo <= s.last().offset < hi && covers(s.last(), i) {
        Some(s.last().data@[i - s.last().offset])
    } else {
        overlay_byte(s.drop_last(), lo, hi, i)
    }
}

/// The run stored at `off`: the data of the last entry of `s` with that
/// offset, or `None`.
pub open spec fn patch_get(s: Seq<Data>, off: u64) -> Option<Seq<u8>>
    decreases s.len(),
{
    if s.len() == 0 {
        None
    } else if s.last().offset == off {
        Some(s.last().data@)
    } else {
        patch_get(s.drop_last(), off)
    }
}

/// Entry offsets strictly ascend, so keys are unique and range scans walk
/// the entries in key order.
pub open spec fn sorted(s: Seq<Data>) -> bool {
    forall|i: int, j: int| 0 <= i < j < s.len() ==> s[i].offset < s[j].offset
}

/// Every stored run holds at least one byte.
pub open spec fn nonempty_runs(s: Seq<Data>) -> bool {
    forall|i: int| 0 <= i < s.len() ==> s[i].data@.len() > 0
}

/// An ordered mapping from absolute file offset to a replacement byte run:
/// the edits pending against one file, applied onto any window they
/// intersect and cleared after a successful flush.
#[derive(Clone, Debug, PartialEq, Eq)]
pub struct PatchOverlay {
    entries: Vec<Data>,
}

impl PatchOverlay {
    /// The pending runs in ascending key order.
    pub closed spec fn view(&self) -> Seq<Data> {
        self.entries@
    }

    pub open spec fn wf(&self) -> bool {
        sorted(self@) && nonempty_runs(self@)
    }

    pub fn new() -> (r: PatchOverlay)
        ensures
            r@.len() == 0,
            r.wf(),
    {
        PatchOverlay { entries: Vec::new() }
    }

    pub fn len(&self) -> (r: usize)
        ensures
            r == self@.len(),
    {
        self.entries.len()
    }

    pub fn is_empty(&self) -> (r: bool)
        ensures
            r == (self@.len() == 0),
    {
        self.entries.len() == 0
    }

    /// The entry at position `i` of the key-ordered scan.
    pub fn entry_at(&self, i: usize) -> (r: &Data)
        requires
            i < self@.len(),
        ensures
            *r == self@[i as int],
    {
        &self.entries[i]
    }

    /// The run stored at `offset`, if any.
    pub fn lookup(&self, offset: u64) -> (r: Option<&Vec<u8>>)
        requires
            self.wf(),
        ensures
            match r {
                Some(v) => patch_get(self@, offset) == Some(v@),
                None => patch_get(self@, offset) is None,
            },
    {
        let n = self.entries.len();
        let mut i: usize = 0;
        while i < n
            invariant
                self.wf(),
                n == self@.len(),
                0 <= i <= n,
                forall|k: int| 0 <= k < i ==> self@[k].offset != offset,
            decreases n - i,
        {
            if self.entries[i].offset == offset {
                proof {
                    lemma_patch_get_by_index(self@, offset);
                    assert(self@[i as int].offset == offset);
                }
                return Some(&self.entries[i].data);
            }
            i += 1;
        }
        proof {
            lemma_patch_get_by_index(self@, offset);
        }
        None
    }

    /// Unconditional insert-or-replace: a later write to the same offset
    /// supersedes the earlier run entirely.
    pub fn set(&mut self, offset: u64, value: Vec<u8>)
        requires
            old(self).wf(),
            value@.len() > 0,
        ensures
            final(self).wf(),
            patch_get(final(self)@, offset) == Some(value@),
            forall|o: u64| o != offset ==> patch_get(final(self)@, o) == patch_get(
                old(self)@,
                o,
            ),
    {
        let n = self.entries.len();
        let mut i: usize = 0;
        while i < n && self.entries[i].offset < offset
            invariant
                self.wf(),
                n == self@.len(),
                0 <= i <= n,
                forall|k: int| 0 <= k < i ==> self@[k].offset < offset,
            decreases n - i,
        {
            i += 1;
        }
        let ghost sold = self@;
        let ghost ii = i as int;
        if i < n && self.entries[i].offset == offset {
            self.entries[i] = Data { offset, data: value };
            proof {
                let snew = self@;
                assert(snew == sold.update(ii, snew[ii]));
                assert forall|a: int, b: int| 0 <= a < b < snew.len() implies snew[a].offset
                    < snew[b].offset by {
                    assert(sold[a].offset == snew[a].offset || a == ii);
                    assert(sold[b].offset == snew[b].offset || b == ii);
                }
            }
        } else {
            proof {
                sold.insert_ensures(ii, Data { offset, data: value });
            }
            self.entries.insert(i, Data { offset, data: value });
            proof {
                let snew = self@;
                assert forall|a: int, b: int| 0 <= a < b < snew.len() implies snew[a].offset
                    < snew[b].offset by {
                    if a < ii && b > ii {
                        assert(snew[a] == sold[a] && snew[b] == sold[b - 1]);
                        if b - 1 > a {
                            assert(sold[a].offset < sold[b - 1].offset);
                        }
                    }
                }
                assert forall|k: int| 0 <= k < snew.len() implies snew[k].data@.len() > 0 by {
                    assert(k < ii ==> snew[k] == sold[k]);
                    assert(k > ii ==> snew[k] == sold[k - 1]);
                }
            }
        }
        proof {
            let snew = self@;
            assert(snew[ii].offset == offset && snew[ii].data@ == value@);
            assert forall|o: u64| o != offset implies patch_get(snew, o) == patch_get(
                sold,
                o,
            ) by {
                lemma_patch_get_by_index(snew, o);
                lemma_patch_get_by_index(sold, o);
                if exists|k: int| 0 <= k < sold.len() && sold[k].offset == o {
                    let k = choose|k: int| 0 <= k < sold.len() && sold[k].offset == o;
                    if snew.len() == sold.len() {
                        assert(snew[k].offset == o && snew[k].data@ == sold[k].data@);
                    } else if k < ii {
                        assert(snew[k].offset == o && snew[k].data@ == sold[k].data@);
                    } else {
                        assert(snew[k + 1] == sold[k]);
                    }
                } else {
                    assert forall|k: int| 0 <= k < snew.len() implies snew[k].offset != o by {
                        if k != ii {
                            if snew.len() == sold.len() {
                                assert(snew[k] == sold[k]);
                            } else if k < ii {
                                assert(snew[k] == sold[k]);
                            } else {
                                assert(snew[k] == sold[k - 1]);
                            }
                        }
                    }
                }
            }
            lemma_patch_get_by_index(snew, offset);
        }
    }

    /// Removes every pending run (what a successful flush does).
    pub fn clear(&mut self)
        ensures
            final(self)@.len() == 0,
            final(self).wf(),
    {
        self.entries.clear();
    }
}

/// Two key-ordered overlays that store the same run at every offset hold
/// the same keys and run contents, position by position.
pub proof fn lemma_sorted_canonical(s1: Seq<Data>, s2: Seq<Data>)
    requires
        sorted(s1),
        sorted(s2),
        forall|o: u64| patch_get(s1, o) == patch_get(s2, o),
    ensures
        s1.len() == s2.len(),
        forall|k: int|
            0 <= k < s1.len() ==> (#[trigger] s1[k]).offset == s2[k].offset && s1[k].data@
                == s2[k].data@,
    decreases s1.len() + s2.len(),
{
    if s1.len() == 0 {
        if s2.len() > 0 {
            lemma_patch_get_by_index(s1, s2.last().offset);
            assert(patch_get(s2, s2.last().offset) == Some(s2.last().data@));
        }
    } else if s2.len() == 0 {
        lemma_patch_get_by_index(s2, s1.last().offset);
        assert(patch_get(s1, s1.last().offset) == Some(s1.last().data@));
    } else {
        let a1 = s1.last();
        let a2 = s2.last();
        assert(s1.drop_last() =~= s1.take(s1.len() - 1));
        assert(s2.drop_last() =~= s2.take(s2.len() - 1));
        if a1.offset < a2.offset {
            lemma_patch_get_by_index(s1, a2.offset);
            assert forall|k: int| 0 <= k < s1.len() implies s1[k].offset != a2.offset by {
                if k < s1.len() - 1 {
                    assert(s1[k].offset < a1.offset);
                }
            }
            assert(patch_get(s2, a2.offset) == Some(a2.data@));
        }
        if a2.offset < a1.offset {
            lemma_patch_get_by_index(s2, a1.offset);
            assert forall|k: int| 0 <= k < s2.len() implies s2[k].offset != a1.offset by {
                if k < s2.len() - 1 {
                    assert(s2[k].offset < a2.offset);
                }
            }
            assert(patch_get(s1, a1.offset) == Some(a1.data@));
        }
        assert(a1.offset == a2.offset);
        assert(patch_get(s1, a1.offset) == Some(a1.data@));
        assert(patch_get(s2, a1.offset) == Some(a2.data@));
        assert forall|o: u64| patch_get(s1.drop_last(), o) == patch_get(
            s2.drop_last(),
            o,
        ) by {
            if o == a1.offset {
                lemma_patch_get_by_index(s1.drop_last(), o);
                lemma_patch_get_by_index(s2.drop_last(), o);
                assert forall|k: int|
                    0 <= k < s1.drop_last().len() implies s1.drop_last()[k].offset != o by {
                    assert(s1[k].offset < a1.offset);
                }
                assert forall|k: int|
                    0 <= k < s2.drop_last().len() implies s2.drop_last()[k].offset != o by {
                    assert(s2[k].offset < a2.offset);
                }
            } else {
                assert(patch_get(s1, o) == patch_get(s1.drop_last(), o));
                assert(patch_get(s2, o) == patch_get(s2.drop_last(), o));
            }
        }
        lemma_sorted_canonical(s1.drop_last(), s2.drop_last());
        assert forall|k: int|
            0 <= k < s1.len() implies (#[trigger] s1[k]).offset == s2[k].offset && s1[k].data@
            == s2[k].data@ by {
            if k < s1.len() - 1 {
                assert(s1.drop_last()[k].offset == s2.drop_last()[k].offset
                    && s1.drop_last()[k].data@ == s2.drop_last()[k].data@);
            }
        }
    }
}

/// The replacement byte an overlay yields depends only on the stored keys
/// and run contents.
pub proof fn lemma_overlay_byte_congruence(
    s1: Seq<Data>,
    s2: Seq<Data>,
    lo: int,
    hi: int,
    i: int,
)
    requires
        s1.len() == s2.len(),
        forall|k: int|
            0 <= k < s1.len() ==> (#[trigger] s1[k]).offset == s2[k].offset && s1[k].data@
                == s2[k].data@,
    ensures
        overlay_byte(s1, lo, hi, i) == overlay_byte(s2, lo, hi, i),
    decreases s1.len(),
{
    if s1.len() > 0 {
        assert(s1.drop_last() =~= s1.take(s1.len() - 1));
        assert(s2.drop_last() =~= s2.take(s2.len() - 1));
        assert(s1[s1.len() - 1].offset == s2[s1.len() - 1].offset);
        lemma_overlay_byte_congruence(s1.drop_last(), s2.drop_last(), lo, hi, i);
    }
}

/// With strictly ascending offsets, `patch_get` is the by-index lookup:
/// `Some(s[k].data)` for the unique `k` keyed `off`, `None` when no entry
/// has that key.
pub proof fn lemma_patch_get_by_index(s: Seq<Data>, off: u64)
    requires
        sorted(s),
    ensures
        forall|k: int| 0 <= k < s.len() && s[k].offset == off ==> patch_get(s, off) == Some(
            s[k].data@,
        ),
        (forall|k: int| 0 <= k < s.len() ==> s[k].offset != off) ==> patch_get(s, off) is None,
    decreases s.len(),
{
    if s.len() > 0 {
        assert(s.drop_last() =~= s.take(s.len() - 1));
        lemma_patch_get_by_index(s.drop_last(), off);
        assert forall|k: int|
            0 <= k < s.len() && s[k].offset == off implies patch_get(s, off) == Some(
            s[k].data@,
        ) by {
            if s.last().offset == off {
                if k < s.len() - 1 {
                    assert(s[k].offset < s[s.len() - 1].offset);
                }
            } else {
                assert(k < s.len() - 1);
                assert(s.drop_last()[k] == s[k]);
            }
        }
    }
}

} // verus!
