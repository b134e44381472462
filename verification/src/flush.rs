//! Flushing pending patches to disk: each patch run maps to a write-aligned
//! read-modify-write region, regions already covered by the previous write
//! are skipped, and each written region has the full overlay re-applied to
//! the bytes read back, so the scan stays single-pass and the write volume
//! is bounded by the distinct aligned regions touched.

use vstd::prelude::*;

use crate::block::read_window;
use crate::block::Block;
use crate::data::Data;
use crate::files::Files;
use crate::overlay::overlay_byte;
use crate::overlay::PatchOverlay;

verus! {

/// One aligned read-modify-write region of a flush.
#[derive(Copy, Clone, PartialEq, Eq, Structural, Debug)]
pub struct Region {
    pub at: u64,
    pub size: u64,
}

/// The start of the write-aligned region holding `off`.
pub open spec fn align_down(off: u64) -> int {
    (off as int / 2048) * 2048
}

/// The length `n` rounded up to whole write blocks.
pub open spec fn round_up(n: int) -> int {
    ((n + 2047) / 2048) * 2048
}

/// The aligned region one patch run maps to.
pub open spec fn region_of(e: Data) -> Region {
    Region { at: align_down(e.offset) as u64, size: round_up(e.data@.len() as int) as u64 }
}

/// The end of the last planned region (0 with no regions yet): the
/// single-pass scan's high-water mark.
pub open spec fn prev_of(plan: Seq<Region>) -> int {
    if plan.len() == 0 {
        0
    } else {
        plan.last().at + plan.last().size
    }
}

/// The aligned regions a flush writes, in scan order: entries keyed at or
/// past `bound` are dropped, and an entry whose region ends at or before
/// the high-water mark was already subsumed by an earlier write.
pub open spec fn spec_plan(s: Seq<Data>, bound: u64) -> Seq<Region>
    decreases s.len(),
{
    if s.len() == 0 {
        Seq::empty()
    } else {
        let pre = spec_plan(s.drop_last(), bound);
        let e = s.last();
        if e.offset < bound && prev_of(pre) < region_of(e).at + region_of(e).size {
            pre.push(region_of(e))
        } else {
            pre
        }
    }
}

/// The byte at absolute position `i` once the planned regions are written
/// back over `disk0`, later regions last: inside a written region (and
/// inside the file), a replacement from the overlay wins; otherwise the
/// byte stands as the previous regions left it.
pub open spec fn flushed_byte(plan: Seq<Region>, patch: Seq<Data>, disk0: Seq<u8>, i: int) -> u8
    decreases plan.len(),
{
    if plan.len() == 0 {
        disk0[i]
    } else {
        let r = plan.last();
        if r.at <= i < r.at + r.size && i < disk0.len() {
            match overlay_byte(patch, r.at as int, r.at + r.size, i) {
                Option::Some(b) => b,
                Option::None => flushed_byte(plan.drop_last(), patch, disk0, i),
            }
        } else {
            flushed_byte(plan.drop_last(), patch, disk0, i)
        }
    }
}

/// Computes the aligned read-modify-write regions a flush of this overlay
/// will perform, in scan order: exactly the plan the write loop follows,
/// for callers that drive the disk I/O themselves.
pub fn plan_regions(patch: &PatchOverlay, bound: u64) -> (r: Vec<Region>)
    requires
        patch.wf(),
        bound < 0x1000_0000_0000_0000,
        forall|k: int|
            0 <= k < patch@.len() ==> (#[trigger] patch@[k]).data@.len() + 2048
                < 0x1000_0000_0000_0000 && patch@[k].data@.len() + 2048 <= usize::MAX,
    ensures
        r@ == spec_plan(patch@, bound),
{
    let n = patch.len();
    let mut r: Vec<Region> = Vec::new();
    let mut prev: u64 = 0;
    let mut k: usize = 0;
    while k < n
        invariant
            patch.wf(),
            n == patch@.len(),
            bound < 0x1000_0000_0000_0000,
            forall|q: int|
                0 <= q < patch@.len() ==> (#[trigger] patch@[q]).data@.len() + 2048
                    < 0x1000_0000_0000_0000 && patch@[q].data@.len() + 2048 <= usize::MAX,
            0 <= k <= n,
            r@ == spec_plan(patch@.take(k as int), bound),
            prev == prev_of(spec_plan(patch@.take(k as int), bound)),
        decreases n - k,
    {
        let e_off = patch.entry_at(k).offset;
        let rl = patch.entry_at(k).data.len();
        proof {
            assert(patch@[k as int].data@.len() > 0);
            assert(patch@.take(k + 1).drop_last() =~= patch@.take(k as int));
            assert(patch@.take(k + 1).last() == patch@[k as int]);
        }
        let r64 = rl as u64;
        let rm1 = r64 - 1;
        let at = e_off & !2047u64;
        proof {
            assert((rm1 | 2047u64) <= rm1 + 2047) by (bit_vector);
        }
        let size = (rm1 | 2047u64) + 1;
        proof {
            let eo = e_off;
            assert(eo & !2047u64 == (eo / 2048) * 2048) by (bit_vector);
            assert(eo & !2047u64 <= eo) by (bit_vector);
            assert((rm1 | 2047u64) + 1 == ((rm1 + 2048) / 2048) * 2048) by (bit_vector)
                requires
                    rm1 < 0x1000_0000_0000_0000u64,
            ;
            assert(rm1 + 2048 == r64 + 2047);
            assert(at == region_of(patch@[k as int]).at);
            assert(size == region_of(patch@[k as int]).size);
        }
        if e_off < bound && prev < at + size {
            r.push(Region { at, size });
            prev = at + size;
        }
        k += 1;
    }
    proof {
        assert(patch@.take(n as int) =~= patch@);
    }
    r
}

impl Files {
    /// Persists every pending patch of the file at `index` into the disk
    /// image `disk`, in ascending key order: patches keyed at or past the
    /// file's length are dropped, each new aligned region is read back from
    /// the image (padded past end-of-file), the full overlay is re-applied
    /// onto that scratch window, and only the bytes inside the file are
    /// written back; a region whose end does not pass the previous region's
    /// end was already written. On return the overlay is empty.
    pub fn write(&mut self, index: usize, disk: &mut Vec<u8>)
        requires
            old(self).wf(),
            index < old(self).files@.len(),
            old(self).files@[index as int].size <= old(disk)@.len(),
            old(disk)@.len() < 0x1000_0000_0000_0000,
            forall|k: int|
                0 <= k < old(self).files@[index as int].patch@.len() ==> (#[trigger] old(
                    self,
                ).files@[index as int].patch@[k]).data@.len() + 2048 < 0x1000_0000_0000_0000
                    && old(self).files@[index as int].patch@[k].data@.len() + 2048
                    <= usize::MAX,
        ensures
            final(self).wf(),
            final(disk)@.len() == old(disk)@.len(),
            ({
                let f0 = old(self).files@[index as int];
                let plan = spec_plan(f0.patch@, f0.size);
                forall|i: int|
                    0 <= i < old(disk)@.len() ==> final(disk)@[i] == flushed_byte(
                        plan,
                        f0.patch@,
                        old(disk)@,
                        i,
                    )
            }),
            final(self).index == old(self).index,
            final(self).files@.len() == old(self).files@.len(),
            forall|i: int|
                0 <= i < old(self).files@.len() && i != index ==> final(self).files@[i] == old(
                    self,
                ).files@[i],
            ({
                let f0 = old(self).files@[index as int];
                let f1 = final(self).files@[index as int];
                &&& f1.patch@.len() == 0
                &&& f1.path@ == f0.path@
                &&& f1.size == f0.size
                &&& f1.block == f0.block
                &&& f1.undo == f0.undo
                &&& f1.redo == f0.redo
                &&& f1.hhits == f0.hhits
            }),
    {
        let ghost disk0 = disk@;
        let ghost f0 = old(self).files@[index as int];
        let len_u = disk.len();
        let len = len_u as u64;
        let bound = self.files[index].size;
        let n = self.files[index].patch.len();
        let mut prev: u64 = 0;
        let mut k: usize = 0;
        while k < n
            invariant
                *self == *old(self),
                old(self).wf(),
                index < old(self).files@.len(),
                f0 == old(self).files@[index as int],
                n == f0.patch@.len(),
                bound == f0.size,
                len == len_u == disk0.len(),
                bound <= len,
                disk0.len() < 0x1000_0000_0000_0000,
                forall|q: int|
                    0 <= q < f0.patch@.len() ==> (#[trigger] f0.patch@[q]).data@.len() + 2048
                        < 0x1000_0000_0000_0000 && f0.patch@[q].data@.len() + 2048
                        <= usize::MAX,
                0 <= k <= n,
                disk@.len() == disk0.len(),
                prev == prev_of(spec_plan(f0.patch@.take(k as int), bound)),
                forall|i: int|
                    0 <= i < disk0.len() ==> disk@[i] == flushed_byte(
                        spec_plan(f0.patch@.take(k as int), bound),
                        f0.patch@,
                        disk0,
                        i,
                    ),
            decreases n - k,
        {
            let e_off = self.files[index].patch.entry_at(k).offset;
            let rl = self.files[index].patch.entry_at(k).data.len();
            proof {
                assert(f0.patch@[k as int].data@.len() > 0);
                assert(f0.patch@.take(k + 1).drop_last() =~= f0.patch@.take(k as int));
                assert(f0.patch@.take(k + 1).last() == f0.patch@[k as int]);
            }
            let r64 = rl as u64;
            let rm1 = r64 - 1;
            let at = e_off & !2047u64;
            proof {
                assert((rm1 | 2047u64) <= rm1 + 2047) by (bit_vector);
            }
            let size = (rm1 | 2047u64) + 1;
            proof {
                let eo = e_off;
                assert(eo & !2047u64 == (eo / 2048) * 2048) by (bit_vector);
                assert(eo & !2047u64 <= eo) by (bit_vector);
                assert((rm1 | 2047u64) + 1 == ((rm1 + 2048) / 2048) * 2048) by (bit_vector)
                    requires
                        rm1 < 0x1000_0000_0000_0000u64,
                ;
                assert(rm1 + 2048 == r64 + 2047);
                assert(((r64 + 2047) / 2048) * 2048 <= r64 + 2047) by (nonlinear_arith);
                assert(at == region_of(f0.patch@[k as int]).at);
                assert(size == region_of(f0.patch@[k as int]).size);
            }
            if e_off < bound && prev < at + size {
                let ghost plan_k = spec_plan(f0.patch@.take(k as int), bound);
                let ghost plan_k1 = spec_plan(f0.patch@.take(k + 1), bound);
                let ghost disk_pre = disk@;
                proof {
                    assert(plan_k1 == plan_k.push(region_of(f0.patch@[k as int])));
                }
                let scratch = read_window(disk, at, size as usize);
                let mut blk = Block {
                    buffer: scratch,
                    source: Vec::new(),
                    offset: at,
                    size,
                    prev_offset: 0,
                    prev_size: 0,
                };
                Files::do_apply_patch(&mut blk, &self.files[index].patch);
                let bsize = if size < len - at {
                    size as usize
                } else {
                    (len - at) as usize
                };
                let mut t: usize = 0;
                while t < bsize
                    invariant
                        0 <= t <= bsize,
                        bsize <= size,
                        at + bsize <= len,
                        at + size < 0x2000_0000_0000_0000,
                        len == len_u == disk0.len(),
                        bsize == (if size < len - at {
                            size as int
                        } else {
                            len - at
                        }),
                        blk.buffer@.len() == size,
                        disk@.len() == disk0.len(),
                        forall|i: int|
                            0 <= i < disk0.len() && !(at <= i < at + t) ==> disk@[i]
                                == disk_pre[i],
                        forall|i: int|
                            at <= i < at + t ==> disk@[i] == blk.buffer@[i - at],
                    decreases bsize - t,
                {
                    let b = blk.buffer[t];
                    disk[(at as usize) + t] = b;
                    t += 1;
                }
                proof {
                    let e = f0.patch@[k as int];
                    let r = region_of(e);
                    assert forall|i: int| 0 <= i < disk0.len() implies disk@[i]
                        == flushed_byte(plan_k1, f0.patch@, disk0, i) by {
                        assert(plan_k1.last() == r);
                        assert(plan_k1.drop_last() =~= plan_k);
                        if r.at <= i < r.at + r.size {
                            assert(i < at + bsize);
                            assert(disk@[i] == blk.buffer@[i - at]);
                            let j = i - at;
                            assert(blk.buffer@[j] == (match overlay_byte(
                                f0.patch@,
                                at as int,
                                at + size,
                                at + j,
                            ) {
                                Option::Some(b) => b,
                                Option::None => window_byte_pre(disk_pre, at as int, j),
                            }));
                            match overlay_byte(f0.patch@, r.at as int, r.at + r.size, i) {
                                Option::Some(b) => {
                                    assert(disk@[i] == b);
                                },
                                Option::None => {
                                    assert(at + j < disk_pre.len());
                                    assert(disk@[i] == disk_pre[i]);
                                },
                            }
                        } else {
                            assert(disk@[i] == disk_pre[i]);
                        }
                    }
                }
                prev = at + size;
                proof {
                    assert(prev == prev_of(plan_k1));
                }
            } else {
                proof {
                    assert(spec_plan(f0.patch@.take(k + 1), bound) == spec_plan(
                        f0.patch@.take(k as int),
                        bound,
                    ));
                }
            }
            k += 1;
        }
        proof {
            assert(f0.patch@.take(n as int) =~= f0.patch@);
        }
        self.files[index].patch.clear();
    }
}

/// What a padded region read shows at window-relative position `j`: the
/// disk byte where the file has one, the fill value past its end.
spec fn window_byte_pre(disk: Seq<u8>, at: int, j: int) -> u8 {
    if at + j < disk.len() {
        disk[at + j]
    } else {
        crate::block::FILL
    }
}

/// Alignment keeps order: a later offset never maps to an earlier region
/// start.
proof fn lemma_align_mono(o1: u64, o2: u64)
    requires
        o1 <= o2,
    ensures
        align_down(o1) <= align_down(o2),
{
    vstd::arithmetic::div_mod::lemma_div_is_ordered(o1 as int, o2 as int, 2048);
    vstd::arithmetic::mul::lemma_mul_inequality(
        o1 as int / 2048,
        o2 as int / 2048,
        2048,
    );
}

/// An offset sits at or after its region's start, and a run that is not
/// longer than one write block ends within its region.
proof fn lemma_region_bounds(e: Data)
    requires
        e.data@.len() > 0,
        e.data@.len() + 2048 <= u64::MAX,
    ensures
        region_of(e).at <= e.offset,
        region_of(e).at == align_down(e.offset),
        region_of(e).size == round_up(e.data@.len() as int),
        e.data@.len() <= region_of(e).size,
        2048 <= region_of(e).size,
{
    let o = e.offset as int;
    let n = e.data@.len() as int;
    vstd::arithmetic::div_mod::lemma_fundamental_div_mod(o, 2048);
    vstd::arithmetic::div_mod::lemma_fundamental_div_mod(n + 2047, 2048);
    assert(((n + 2047) / 2048) * 2048 >= n) by (nonlinear_arith)
        requires
            n >= 1,
    ;
    assert(((n + 2047) / 2048) * 2048 >= 2048) by (nonlinear_arith)
        requires
            n >= 1,
    ;
    assert((o / 2048) * 2048 <= o) by (nonlinear_arith)
        requires
            o >= 0,
    ;
    assert(((n + 2047) / 2048) * 2048 <= n + 2047) by (nonlinear_arith)
        requires
            n >= 1,
    ;
}

/// Every patch's run is short enough for its rounded region size to be a
/// `u64` value (true of any run a real vector can hold, short of the
/// machine's limit).
pub open spec fn patch_bounds(s: Seq<Data>) -> bool {
    forall|q: int| 0 <= q < s.len() ==> (#[trigger] s[q]).data@.len() + 2048 <= u64::MAX
}

/// Region ends strictly increase along the scan: each emitted region's
/// end passes the high-water mark, which is the last region's end.
proof fn lemma_plan_ends_increase(s: Seq<Data>, bound: u64)
    requires
        crate::overlay::sorted(s),
        crate::overlay::nonempty_runs(s),
        patch_bounds(s),
    ensures
        forall|r1: int, r2: int|
            0 <= r1 < r2 < spec_plan(s, bound).len() ==> (#[trigger] spec_plan(s, bound)[r1]).at
                + spec_plan(s, bound)[r1].size < (#[trigger] spec_plan(s, bound)[r2]).at
                + spec_plan(s, bound)[r2].size,
    decreases s.len(),
{
    if s.len() > 0 {
        let sp = s.drop_last();
        assert(sp =~= s.take(s.len() - 1));
        lemma_plan_ends_increase(sp, bound);
        let pre = spec_plan(sp, bound);
        let e = s.last();
        let r = region_of(e);
        let plan = spec_plan(s, bound);
        if e.offset < bound && prev_of(pre) < r.at + r.size {
            assert(plan == pre.push(r));
            assert forall|r1: int, r2: int|
                0 <= r1 < r2 < plan.len() implies (#[trigger] plan[r1]).at + plan[r1].size
                < (#[trigger] plan[r2]).at + plan[r2].size by {
                if r2 == plan.len() - 1 && pre.len() >= 1 {
                    if r1 < pre.len() - 1 {
                        assert(pre[r1].at + pre[r1].size < pre[pre.len() - 1].at
                            + pre[pre.len() - 1].size);
                    }
                    assert(pre[pre.len() - 1].at + pre[pre.len() - 1].size == prev_of(pre));
                }
            }
        } else {
            assert(plan == pre);
        }
    }
}

/// Every planned region is the aligned region of some patch keyed inside
/// the file.
pub proof fn lemma_plan_from_entries(s: Seq<Data>, bound: u64)
    requires
        crate::overlay::sorted(s),
    ensures
        forall|ridx: int|
            0 <= ridx < spec_plan(s, bound).len() ==> exists|q: int|
                0 <= q < s.len() && s[q].offset < bound && (#[trigger] spec_plan(s, bound)[ridx])
                    == region_of(s[q]),
    decreases s.len(),
{
    if s.len() > 0 {
        let sp = s.drop_last();
        assert(sp =~= s.take(s.len() - 1));
        lemma_plan_from_entries(sp, bound);
        let pre = spec_plan(sp, bound);
        let e = s.last();
        let r = region_of(e);
        let plan = spec_plan(s, bound);
        if e.offset < bound && prev_of(pre) < r.at + r.size {
            assert(plan == pre.push(r));
            assert forall|ridx: int| 0 <= ridx < plan.len() implies exists|q: int|
                0 <= q < s.len() && s[q].offset < bound && (#[trigger] plan[ridx])
                    == region_of(s[q]) by {
                if ridx == plan.len() - 1 {
                    assert(0 <= s.len() - 1 < s.len() && s[s.len() - 1].offset < bound
                        && plan[ridx] == region_of(s[s.len() - 1]));
                } else {
                    let q = choose|q: int|
                        0 <= q < sp.len() && sp[q].offset < bound && pre[ridx] == region_of(
                            sp[q],
                        );
                    assert(0 <= q < s.len() && s[q].offset < bound && plan[ridx]
                        == region_of(s[q]));
                }
            }
        } else {
            assert(plan == pre);
            assert forall|ridx: int| 0 <= ridx < plan.len() implies exists|q: int|
                0 <= q < s.len() && s[q].offset < bound && (#[trigger] plan[ridx])
                    == region_of(s[q]) by {
                let q = choose|q: int|
                    0 <= q < sp.len() && sp[q].offset < bound && pre[ridx] == region_of(
                        sp[q],
                    );
                assert(0 <= q < s.len() && s[q].offset < bound && plan[ridx] == region_of(
                    s[q],
                ));
            }
        }
    }
}

/// Whether some planned region wholly contains the aligned region `r`.
pub open spec fn plan_contains(plan: Seq<Region>, r: Region) -> bool {
    exists|ridx: int|
        0 <= ridx < plan.len() && (#[trigger] plan[ridx]).at <= r.at && r.at + r.size
            <= plan[ridx].at + plan[ridx].size
}

/// Every patch keyed inside the file has its whole aligned region inside
/// some planned region: its bytes are written, by its own region or by an
/// overlapping earlier one.
#[verifier::rlimit(100)]
#[verifier::spinoff_prover]
proof fn lemma_plan_covers_entries(s: Seq<Data>, bound: u64)
    requires
        crate::overlay::sorted(s),
        crate::overlay::nonempty_runs(s),
        patch_bounds(s),
    ensures
        forall|q: int|
            0 <= q < s.len() && (#[trigger] s[q]).offset < bound ==> plan_contains(
                spec_plan(s, bound),
                region_of(s[q]),
            ),
    decreases s.len(),
{
    if s.len() > 0 {
        let sp = s.drop_last();
        assert(sp =~= s.take(s.len() - 1));
        lemma_plan_covers_entries(sp, bound);
        lemma_plan_from_entries(sp, bound);
        let pre = spec_plan(sp, bound);
        let e = s.last();
        let r = region_of(e);
        let plan = spec_plan(s, bound);
        assert forall|q: int|
            0 <= q < s.len() && (#[trigger] s[q]).offset < bound implies plan_contains(
            plan,
            region_of(s[q]),
        ) by {
            if q < s.len() - 1 {
                assert(plan_contains(pre, region_of(sp[q])));
                let ridx = choose|ridx: int|
                    0 <= ridx < pre.len() && (#[trigger] pre[ridx]).at <= region_of(
                        sp[q],
                    ).at && region_of(sp[q]).at + region_of(sp[q]).size <= pre[ridx].at
                        + pre[ridx].size;
                if e.offset < bound && prev_of(pre) < r.at + r.size {
                    assert(plan == pre.push(r));
                    assert(plan[ridx] == pre[ridx]);
                } else {
                    assert(plan == pre);
                }
                assert(0 <= ridx < plan.len() && plan[ridx].at <= region_of(s[q]).at
                    && region_of(s[q]).at + region_of(s[q]).size <= plan[ridx].at
                    + plan[ridx].size);
            } else {
                lemma_region_bounds(e);
                if prev_of(pre) < r.at + r.size {
                    assert(plan == pre.push(r));
                    assert(plan[plan.len() - 1] == r);
                } else {
                    assert(plan == pre);
                    assert(pre.len() > 0) by {
                        if pre.len() == 0 {
                            assert(prev_of(pre) == 0);
                        }
                    }
                    let last = pre.len() - 1;
                    let qq = choose|qq: int|
                        0 <= qq < sp.len() && sp[qq].offset < bound && pre[last]
                            == region_of(sp[qq]);
                    lemma_region_bounds(sp[qq]);
                    assert(sp[qq].offset <= e.offset);
                    lemma_align_mono(sp[qq].offset, e.offset);
                    assert(pre[last].at + pre[last].size == prev_of(pre));
                    assert(0 <= last < plan.len() && plan[last].at <= r.at && r.at + r.size
                        <= plan[last].at + plan[last].size);
                }
            }
        }
    }
}

/// With no entry of `s` covering `i`, the overlay leaves the byte alone.
proof fn lemma_overlay_byte_none(s: Seq<Data>, lo: int, hi: int, i: int)
    requires
        forall|q: int| 0 <= q < s.len() ==> !crate::overlay::covers(#[trigger] s[q], i),
    ensures
        overlay_byte(s, lo, hi, i) is None,
    decreases s.len(),
{
    if s.len() > 0 {
        lemma_overlay_byte_none(s.drop_last(), lo, hi, i);
    }
}

/// With exactly one entry covering `i`, the overlay's replacement byte is
/// that entry's — when its key lies in the range — and nothing otherwise.
proof fn lemma_overlay_byte_unique(s: Seq<Data>, lo: int, hi: int, i: int, k: int)
    requires
        0 <= k < s.len(),
        crate::overlay::covers(s[k], i),
        forall|q: int| 0 <= q < s.len() && q != k ==> !crate::overlay::covers(#[trigger] s[q], i),
    ensures
        overlay_byte(s, lo, hi, i) == (if lo <= s[k].offset < hi {
            Some(s[k].data@[i - s[k].offset])
        } else {
            None::<u8>
        }),
    decreases s.len(),
{
    if k == s.len() - 1 {
        if !(lo <= s[k].offset < hi) {
            assert(s.drop_last() =~= s.take(s.len() - 1));
            lemma_overlay_byte_none(s.drop_last(), lo, hi, i);
        }
    } else {
        assert(s.drop_last() =~= s.take(s.len() - 1));
        lemma_overlay_byte_unique(s.drop_last(), lo, hi, i, k);
    }
}

/// Where one patch alone covers a byte and some planned region wholly holds
/// the patch's run, the flushed disk shows the patch's byte there.
proof fn lemma_flushed_byte_unique(
    plan: Seq<Region>,
    patch: Seq<Data>,
    disk0: Seq<u8>,
    k: int,
    j: int,
)
    requires
        0 <= k < patch.len(),
        0 <= j < patch[k].data@.len(),
        patch[k].offset + j < disk0.len(),
        forall|q: int|
            0 <= q < patch.len() && q != k ==> !crate::overlay::covers(
                #[trigger] patch[q],
                patch[k].offset + j,
            ),
        exists|ridx: int|
            0 <= ridx < plan.len() && (#[trigger] plan[ridx]).at <= patch[k].offset
                && patch[k].offset + patch[k].data@.len() <= plan[ridx].at + plan[ridx].size,
    ensures
        flushed_byte(plan, patch, disk0, patch[k].offset + j) == patch[k].data@[j],
    decreases plan.len(),
{
    let e = patch[k];
    let i = e.offset + j;
    let w = choose|ridx: int|
        0 <= ridx < plan.len() && (#[trigger] plan[ridx]).at <= e.offset && e.offset
            + e.data@.len() <= plan[ridx].at + plan[ridx].size;
    let r = plan.last();
    if r.at <= i < r.at + r.size && i < disk0.len() {
        lemma_overlay_byte_unique(patch, r.at as int, r.at + r.size, i, k);
        if lo_holds(r, e.offset) {
        } else {
            assert(w < plan.len() - 1);
            assert(plan.drop_last() =~= plan.take(plan.len() - 1));
            assert(0 <= w < plan.drop_last().len() && (plan.drop_last()[w]).at <= e.offset
                && e.offset + e.data@.len() <= (plan.drop_last()[w]).at + (
                plan.drop_last()[w]).size);
            lemma_flushed_byte_unique(plan.drop_last(), patch, disk0, k, j);
        }
    } else {
        assert(w < plan.len() - 1) by {
            if w == plan.len() - 1 {
                assert(r.at <= i < r.at + r.size);
            }
        }
        assert(plan.drop_last() =~= plan.take(plan.len() - 1));
        assert(0 <= w < plan.drop_last().len() && (plan.drop_last()[w]).at <= e.offset
            && e.offset + e.data@.len() <= (plan.drop_last()[w]).at + (
            plan.drop_last()[w]).size);
        lemma_flushed_byte_unique(plan.drop_last(), patch, disk0, k, j);
    }
}

/// Whether a region's range holds the offset.
spec fn lo_holds(r: Region, off: u64) -> bool {
    r.at <= off < r.at + r.size
}

/// Round trip, flush side: after a flush, every byte of a patch whose run
/// lies wholly inside the file, inside its own aligned region, and apart
/// from every other patch's run, holds exactly the edited value on disk.
pub proof fn lemma_flush_round_trip(
    patch: Seq<Data>,
    disk0: Seq<u8>,
    bound: u64,
    k: int,
    j: int,
)
    requires
        crate::overlay::sorted(patch),
        crate::overlay::nonempty_runs(patch),
        patch_bounds(patch),
        bound <= disk0.len(),
        forall|q1: int, q2: int|
            0 <= q1 < q2 < patch.len() ==> (#[trigger] patch[q1]).offset
                + patch[q1].data@.len() <= (#[trigger] patch[q2]).offset,
        0 <= k < patch.len(),
        patch[k].offset + patch[k].data@.len() <= bound,
        patch[k].offset + patch[k].data@.len() <= region_of(patch[k]).at + region_of(
            patch[k],
        ).size,
        0 <= j < patch[k].data@.len(),
    ensures
        flushed_byte(spec_plan(patch, bound), patch, disk0, patch[k].offset + j)
            == patch[k].data@[j],
{
    let e = patch[k];
    let i = e.offset + j;
    lemma_region_bounds(e);
    lemma_plan_covers_entries(patch, bound);
    let plan = spec_plan(patch, bound);
    assert(plan_contains(plan, region_of(e)));
    let ridx = choose|ridx: int|
        0 <= ridx < plan.len() && (#[trigger] plan[ridx]).at <= region_of(e).at
            && region_of(e).at + region_of(e).size <= plan[ridx].at + plan[ridx].size;
    assert(plan[ridx].at <= e.offset && e.offset + e.data@.len() <= plan[ridx].at
        + plan[ridx].size);
    assert forall|q: int|
        0 <= q < patch.len() && q != k implies !crate::overlay::covers(
        #[trigger] patch[q],
        i,
    ) by {
        if q < k {
            assert(patch[q].offset + patch[q].data@.len() <= patch[k].offset);
        } else {
            assert(patch[k].offset + patch[k].data@.len() <= patch[q].offset);
        }
    }
    lemma_flushed_byte_unique(plan, patch, disk0, k, j);
}

/// Round trip, reload side: a fresh window over the flushed image shows
/// each such patch byte unchanged.
pub proof fn lemma_flush_reload(
    patch: Seq<Data>,
    disk0: Seq<u8>,
    disk1: Seq<u8>,
    bound: u64,
    woff: u64,
    wsize: int,
    k: int,
    j: int,
)
    requires
        crate::overlay::sorted(patch),
        crate::overlay::nonempty_runs(patch),
        patch_bounds(patch),
        bound <= disk0.len(),
        forall|q1: int, q2: int|
            0 <= q1 < q2 < patch.len() ==> (#[trigger] patch[q1]).offset
                + patch[q1].data@.len() <= (#[trigger] patch[q2]).offset,
        0 <= k < patch.len(),
        patch[k].offset + patch[k].data@.len() <= bound,
        patch[k].offset + patch[k].data@.len() <= region_of(patch[k]).at + region_of(
            patch[k],
        ).size,
        0 <= j < patch[k].data@.len(),
        disk1.len() == disk0.len(),
        forall|i: int|
            0 <= i < disk0.len() ==> disk1[i] == flushed_byte(
                spec_plan(patch, bound),
                patch,
                disk0,
                i,
            ),
        woff <= patch[k].offset + j < woff + wsize,
    ensures
        crate::block::window_spec(disk1, woff as int, wsize)[patch[k].offset + j - woff]
            == patch[k].data@[j],
{
    lemma_flush_round_trip(patch, disk0, bound, k, j);
}

/// Flush region minimality: where the aligned regions of the patches inside
/// the file never partially overlap, the planned regions are pairwise
/// distinct and every such patch's aligned region is planned exactly once
/// (`lemma_plan_from_entries` adds that nothing else is ever written).
#[verifier::rlimit(100)]
#[verifier::spinoff_prover]
pub proof fn lemma_flush_minimality(patch: Seq<Data>, bound: u64)
    requires
        crate::overlay::sorted(patch),
        crate::overlay::nonempty_runs(patch),
        patch_bounds(patch),
        forall|q1: int, q2: int|
            0 <= q1 < patch.len() && 0 <= q2 < patch.len() && (#[trigger] patch[q1]).offset
                < bound && (#[trigger] patch[q2]).offset < bound ==> region_of(patch[q1])
                == region_of(patch[q2]) || region_of(patch[q1]).at + region_of(
                patch[q1],
            ).size <= region_of(patch[q2]).at || region_of(patch[q2]).at + region_of(
                patch[q2],
            ).size <= region_of(patch[q1]).at,
    ensures
        forall|r1: int, r2: int|
            0 <= r1 < r2 < spec_plan(patch, bound).len() ==> spec_plan(patch, bound)[r1]
                != spec_plan(patch, bound)[r2],
        forall|q: int|
            0 <= q < patch.len() && (#[trigger] patch[q]).offset < bound ==> exists|ridx: int|
                0 <= ridx < spec_plan(patch, bound).len() && spec_plan(patch, bound)[ridx]
                    == region_of(patch[q]),
{
    lemma_plan_ends_increase(patch, bound);
    lemma_plan_from_entries(patch, bound);
    lemma_plan_covers_entries(patch, bound);
    let plan = spec_plan(patch, bound);
    assert forall|q: int|
        0 <= q < patch.len() && (#[trigger] patch[q]).offset < bound implies exists|ridx: int|
        0 <= ridx < plan.len() && plan[ridx] == region_of(patch[q]) by {
        let r = region_of(patch[q]);
        let ridx = choose|ridx: int|
            0 <= ridx < plan.len() && (#[trigger] plan[ridx]).at <= r.at && r.at + r.size
                <= plan[ridx].at + plan[ridx].size;
        let qq = choose|qq: int|
            0 <= qq < patch.len() && patch[qq].offset < bound && (#[trigger] plan[ridx])
                == region_of(patch[qq]);
        lemma_region_bounds(patch[q]);
        lemma_region_bounds(patch[qq]);
        assert(plan[ridx] == r);
    }
}

} // verus!
