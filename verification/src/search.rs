//! Chunked pattern search: the file is scanned in fixed 2048-byte chunks,
//! each chunk read extended by `pattern length - 1` bytes so a match
//! straddling a chunk boundary is still found in the earlier chunk, and at
//! most the first match per chunk is recorded.

use vstd::prelude::*;

use crate::block::read_window;
use crate::block::window_spec;
use crate::files::File;
use crate::hits::Hits;

verus! {

/// The fixed chunk size of a scan, equal to one write block.
pub const CHUNK: u64 = 2048;

/// True when `pat` occurs in `hay` starting at position `i`.
pub open spec fn is_match_at(hay: Seq<u8>, pat: Seq<u8>, i: int) -> bool {
    0 <= i && i + pat.len() <= hay.len() && hay.subrange(i, i + pat.len()) == pat
}

/// The position of the leftmost occurrence of `pat` at or after `i` in
/// `hay`, or `None`.
pub open spec fn first_match_from(hay: Seq<u8>, pat: Seq<u8>, i: int) -> Option<int>
    decreases hay.len() - i + 1,
{
    if i + pat.len() > hay.len() || i > hay.len() {
        None
    } else if is_match_at(hay, pat, i) {
        Some(i)
    } else {
        first_match_from(hay, pat, i + 1)
    }
}

/// The absolute offsets a scan of `data` records from chunk offset `off`
/// on: per chunk, the first match inside the chunk's extended read
/// (`CHUNK + pat.len() - 1` bytes, padded past end-of-file), then the scan
/// advances by exactly one chunk.
pub open spec fn scan_spec(data: Seq<u8>, pat: Seq<u8>, off: int) -> Seq<u64>
    decreases data.len() + 2048 - off
        when 0 <= off
{
    if off >= data.len() {
        Seq::empty()
    } else {
        let ext = window_spec(data, off, 2048 + pat.len() - 1);
        let head: Seq<u64> = match first_match_from(ext, pat, 0) {
            Option::Some(m) => seq![(off + m) as u64],
            Option::None => Seq::empty(),
        };
        head + scan_spec(data, pat, off + 2048)
    }
}

/// Relies on memmem's TwoWaySearcher (the two-way string matching algorithm
/// of Crochemore and Perrin, as used by str::find in std): `search_in`
/// returns the starting index of the leftmost occurrence of the needle in
/// the haystack, or `None` when the needle occurs nowhere in it.
#[verifier::external_body]
fn find_first(haystack: &Vec<u8>, needle: &Vec<u8>) -> (r: Option<usize>)
    ensures
        match r {
            Option::Some(i) => is_match_at(haystack@, needle@, i as int) && forall|j: int|
                0 <= j < i ==> !is_match_at(haystack@, needle@, j),
            Option::None => forall|j: int| !is_match_at(haystack@, needle@, j),
        },
{
    memmem::Searcher::search_in(
        &memmem::TwoWaySearcher::new(needle.as_slice()),
        haystack.as_slice(),
    )
}

/// The leftmost-match facts pin `first_match_from` down: a first occurrence
/// at `i` with none before it is exactly `Some(i)`, and no occurrence at
/// all is exactly `None`.
proof fn lemma_first_match(hay: Seq<u8>, pat: Seq<u8>, i: int)
    requires
        0 <= i <= hay.len(),
        forall|j: int| 0 <= j < i ==> !is_match_at(hay, pat, j),
    ensures
        is_match_at(hay, pat, i) ==> first_match_from(hay, pat, 0) == Some(i),
        (forall|j: int| !is_match_at(hay, pat, j)) ==> first_match_from(hay, pat, 0) is None,
    decreases i + 1,
{
    if is_match_at(hay, pat, i) {
        lemma_first_match_step(hay, pat, 0, i);
    }
    if forall|j: int| !is_match_at(hay, pat, j) {
        lemma_first_match_none(hay, pat, 0);
    }
}

/// Stepping the search start over non-matching positions changes nothing.
proof fn lemma_first_match_step(hay: Seq<u8>, pat: Seq<u8>, lo: int, i: int)
    requires
        0 <= lo <= i <= hay.len(),
        forall|j: int| lo <= j < i ==> !is_match_at(hay, pat, j),
        is_match_at(hay, pat, i),
    ensures
        first_match_from(hay, pat, lo) == Some(i),
    decreases i - lo,
{
    if lo < i {
        lemma_first_match_step(hay, pat, lo + 1, i);
    }
}

/// With no occurrence anywhere, the search yields `None` from any start.
proof fn lemma_first_match_none(hay: Seq<u8>, pat: Seq<u8>, lo: int)
    requires
        0 <= lo,
        forall|j: int| !is_match_at(hay, pat, j),
    ensures
        first_match_from(hay, pat, lo) is None,
    decreases hay.len() - lo + 1,
{
    if !(lo + pat.len() > hay.len() || lo > hay.len()) {
        lemma_first_match_none(hay, pat, lo + 1);
    }
}

/// A search from `lo` finds something at or before any occurrence at or
/// after `lo`.
proof fn lemma_first_match_le(hay: Seq<u8>, pat: Seq<u8>, lo: int, j: int)
    requires
        0 <= lo <= j,
        is_match_at(hay, pat, j),
    ensures
        first_match_from(hay, pat, lo) is Some,
        first_match_from(hay, pat, lo)->Some_0 <= j,
    decreases j - lo,
{
    if !is_match_at(hay, pat, lo) {
        lemma_first_match_le(hay, pat, lo + 1, j);
    }
}

/// What the search returns is a genuine occurrence at or after the start.
proof fn lemma_first_match_sound(hay: Seq<u8>, pat: Seq<u8>, lo: int)
    requires
        0 <= lo,
        first_match_from(hay, pat, lo) is Some,
    ensures
        ({
            let m = first_match_from(hay, pat, lo)->Some_0;
            lo <= m && is_match_at(hay, pat, m)
        }),
    decreases hay.len() - lo + 1,
{
    if !(lo + pat.len() > hay.len() || lo > hay.len()) && !is_match_at(hay, pat, lo) {
        lemma_first_match_sound(hay, pat, lo + 1);
    }
}

/// A chunk's recorded hit appears in the scan that starts at or before the
/// chunk.
proof fn lemma_scan_contains(data: Seq<u8>, pat: Seq<u8>, off: int, c: int, m: int)
    requires
        pat.len() >= 1,
        0 <= off <= c < data.len(),
        (c - off) % 2048 == 0,
        first_match_from(window_spec(data, c, 2048 + pat.len() - 1), pat, 0) == Some(m),
        0 <= m,
    ensures
        scan_spec(data, pat, off).contains(((c + m) as u64)),
    decreases data.len() - off,
{
    let tail = scan_spec(data, pat, off + 2048);
    let ext = window_spec(data, off, 2048 + pat.len() - 1);
    let head: Seq<u64> = match first_match_from(ext, pat, 0) {
        Option::Some(mm) => seq![(off + mm) as u64],
        Option::None => Seq::empty(),
    };
    assert(scan_spec(data, pat, off) == head + tail);
    if off == c {
        assert(scan_spec(data, pat, off)[0] == (c + m) as u64);
    } else {
        lemma_scan_contains(data, pat, off + 2048, c, m);
        let w = choose|w: int| 0 <= w < tail.len() && tail[w] == ((c + m) as u64);
        assert(scan_spec(data, pat, off)[head.len() + w] == ((c + m) as u64));
    }
}

/// Search completeness within one chunk: a pattern occurrence lying wholly
/// inside the file is never missed — the chunk holding its start records a
/// hit, and that hit is itself a genuine occurrence at or before it within
/// the same chunk's extended read. (Any later occurrence in the same chunk
/// is not recorded: the scan keeps one hit per chunk and advances by the
/// chunk size.)
pub proof fn lemma_search_complete(data: Seq<u8>, pat: Seq<u8>, k: int)
    requires
        pat.len() >= 1,
        0 <= k,
        k + pat.len() <= data.len(),
        is_match_at(data, pat, k),
    ensures
        ({
            let c = (k / 2048) * 2048;
            let ext = window_spec(data, c, 2048 + pat.len() - 1);
            &&& first_match_from(ext, pat, 0) is Some
            &&& ({
                let m = first_match_from(ext, pat, 0)->Some_0;
                &&& 0 <= m <= k - c
                &&& is_match_at(data, pat, c + m)
                &&& scan_spec(data, pat, 0).contains(((c + m) as u64))
            })
        }),
{
    let c = (k / 2048) * 2048;
    vstd::arithmetic::div_mod::lemma_fundamental_div_mod(k, 2048);
    assert(0 <= k % 2048 < 2048);
    assert(c == k - (k % 2048));
    let ext = window_spec(data, c, 2048 + pat.len() - 1);
    assert(is_match_at(ext, pat, k - c)) by {
        assert(ext.subrange(k - c, k - c + pat.len()) =~= pat) by {
            assert forall|t: int| 0 <= t < pat.len() implies ext[k - c + t] == pat[t] by {
                assert(data.subrange(k, k + pat.len())[t] == pat[t]);
            }
        }
    }
    lemma_first_match_le(ext, pat, 0, k - c);
    lemma_first_match_sound(ext, pat, 0);
    let m = first_match_from(ext, pat, 0)->Some_0;
    assert(is_match_at(ext, pat, m));
    assert(is_match_at(data, pat, c + m)) by {
        assert(data.subrange(c + m, c + m + pat.len()) =~= pat) by {
            assert forall|t: int| 0 <= t < pat.len() implies data[c + m + t] == pat[t] by {
                assert(ext.subrange(m, m + pat.len())[t] == pat[t]);
                assert(ext[m + t] == data[c + m + t]);
            }
        }
    }
    lemma_scan_contains(data, pat, 0, c, m);
}

/// Scans an in-memory file image for a byte pattern, chunk by chunk, and
/// returns the new hit group: the pattern's text as the group's flag and
/// every recorded match offset in ascending order, selection at the first.
pub fn search_scan(data: &Vec<u8>, pattern: &Vec<u8>, flag: String) -> (r: Hits)
    requires
        pattern@.len() >= 1,
        pattern@.len() + 2048 <= usize::MAX,
        data@.len() + 2048 <= u64::MAX,
    ensures
        r.hits@ == scan_spec(data@, pattern@, 0),
        r.flag@ == flag@,
        r.selected == 0,
        r.wf(),
{
    let mut hits = Hits::new(flag);
    let len = data.len() as u64;
    let ext_size = CHUNK as usize + pattern.len() - 1;
    let mut offset: u64 = 0;
    while offset < len
        invariant
            pattern@.len() >= 1,
            pattern@.len() + 2048 <= usize::MAX,
            data@.len() + 2048 <= u64::MAX,
            len == data@.len(),
            ext_size == 2048 + pattern@.len() - 1,
            offset % 2048 == 0,
            0 <= offset <= len + 2048,
            hits.selected == 0,
            hits.flag@ == flag@,
            scan_spec(data@, pattern@, 0) == hits.hits@ + scan_spec(
                data@,
                pattern@,
                offset as int,
            ),
        decreases len + 2048 - offset,
    {
        let ext = read_window(data, offset, ext_size);
        let ghost pre = hits.hits@;
        let m = find_first(&ext, pattern);
        match m {
            Option::Some(i) => {
                proof {
                    lemma_first_match(ext@, pattern@, i as int);
                }
                hits.hits.push(offset + i as u64);
            },
            Option::None => {
                proof {
                    lemma_first_match(ext@, pattern@, 0);
                }
            },
        }
        proof {
            assert(scan_spec(data@, pattern@, offset as int) == (match first_match_from(
                ext@,
                pattern@,
                0,
            ) {
                Option::Some(mm) => seq![(offset + mm) as u64],
                Option::None => Seq::<u64>::empty(),
            }) + scan_spec(data@, pattern@, offset + 2048));
            assert(hits.hits@ + scan_spec(data@, pattern@, offset + 2048) =~= pre
                + scan_spec(data@, pattern@, offset as int));
        }
        offset += CHUNK;
    }
    proof {
        assert(scan_spec(data@, pattern@, offset as int) =~= Seq::<u64>::empty());
        assert(hits.hits@ =~= hits.hits@ + Seq::<u64>::empty());
    }
    hits
}

/// Searches one chunk's extended read and returns the absolute offset of
/// its first match, if any: the per-chunk step of the scan, for callers
/// that stream a file chunk by chunk instead of holding it whole.
pub fn search_chunk(ext: &Vec<u8>, pattern: &Vec<u8>, chunk_offset: u64) -> (r: Option<u64>)
    requires
        chunk_offset + ext@.len() <= u64::MAX,
    ensures
        match r {
            Option::Some(h) => chunk_offset <= h && first_match_from(ext@, pattern@, 0)
                == Some(h - chunk_offset),
            Option::None => first_match_from(ext@, pattern@, 0) is None,
        },
{
    let m = find_first(ext, pattern);
    match m {
        Option::Some(i) => {
            proof {
                lemma_first_match(ext@, pattern@, i as int);
            }
            Some(chunk_offset + i as u64)
        },
        Option::None => {
            proof {
                lemma_first_match(ext@, pattern@, 0);
            }
            None
        },
    }
}

impl File {
    /// Searches this file's contents for a byte pattern and appends the
    /// resulting hit group to the file's collection, returning how many
    /// matches were recorded.
    pub fn handle_search(&mut self, data: &Vec<u8>, pattern: &Vec<u8>, flag: String) -> (found:
        usize)
        requires
            old(self).wf(),
            pattern@.len() >= 1,
            pattern@.len() + 2048 <= usize::MAX,
            data@.len() + 2048 <= u64::MAX,
        ensures
            final(self).wf(),
            found == scan_spec(data@, pattern@, 0).len(),
            final(self).hhits.hits@.len() == old(self).hhits.hits@.len() + 1,
            forall|i: int|
                0 <= i < old(self).hhits.hits@.len() ==> final(self).hhits.hits@[i] == old(
                    self,
                ).hhits.hits@[i],
            final(self).hhits.hits@.last().hits@ == scan_spec(data@, pattern@, 0),
            final(self).hhits.hits@.last().flag@ == flag@,
            final(self).hhits.hits@.last().selected == 0,
            final(self).hhits.selected == old(self).hhits.selected,
            final(self).path@ == old(self).path@,
            final(self).size == old(self).size,
            final(self).block == old(self).block,
            final(self).patch == old(self).patch,
            final(self).undo == old(self).undo,
            final(self).redo == old(self).redo,
    {
        let hits = search_scan(data, pattern, flag);
        let found = hits.hits.len();
        self.hhits.add(hits);
        found
    }
}

} // verus!
