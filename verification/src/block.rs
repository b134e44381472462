//! The in-memory window onto a file: a fixed-size view at a given offset,
//! holding both the bytes last read from disk (`source`) and the currently
//! edited copy (`buffer`), padded with `0xFF` past end-of-file.

use vstd::prelude::*;

verus! {

/// The fill value for window bytes past end-of-file.
pub const FILL: u8 = 0xFF;

/// The bytes a window of `size` bytes at `off` shows over the file contents
/// `data`: the file's bytes where they exist, `0xFF` beyond its end.
pub open spec fn window_spec(data: Seq<u8>, off: int, size: int) -> Seq<u8> {
    Seq::new(
        size as nat,
        |j: int| if off + j < data.len() { data[off + j] } else { FILL },
    )
}

/// A bounded view of a file at a given offset. `buffer` is the edited copy
/// shown to the user; `source` is what was last read from disk. Once loaded,
/// both hold exactly `size` bytes. `prev_offset`/`prev_size` record the last
/// load, so an unchanged window is not re-read.
#[derive(Clone, Debug, PartialEq, Eq)]
pub struct Block {
    pub buffer: Vec<u8>,
    pub source: Vec<u8>,
    pub offset: u64,
    pub size: u64,
    pub prev_offset: u64,
    pub prev_size: u64,
}

impl Block {
    pub fn new(size: usize) -> (r: Block)
        ensures
            r.buffer@.len() == 0,
            r.source@.len() == 0,
            r.offset == 0,
            r.size == size as u64,
            r.prev_offset == 0,
            r.prev_size == 0,
    {
        Block {
            buffer: Vec::with_capacity(size),
            source: Vec::with_capacity(size),
            offset: 0,
            size: size as u64,
            prev_offset: 0,
            prev_size: 0,
        }
    }
}

/// Pads a partial read out to the requested window size: the bytes that were
/// actually read, followed by `0xFF` for every unread trailing byte.
pub fn pad_read(raw: &Vec<u8>, size: usize) -> (r: Vec<u8>)
    requires
        raw@.len() <= size,
    ensures
        r@.len() == size,
        forall|j: int| 0 <= j < raw@.len() ==> r@[j] == raw@[j],
        forall|j: int| raw@.len() <= j < size ==> r@[j] == FILL,
{
    let mut r: Vec<u8> = Vec::with_capacity(size);
    let mut j: usize = 0;
    let n = raw.len();
    while j < n
        invariant
            n == raw@.len() <= size,
            j <= n,
            r@.len() == j,
            forall|k: int| 0 <= k < j ==> r@[k] == raw@[k],
        decreases n - j,
    {
        r.push(raw[j]);
        j += 1;
    }
    while j < size
        invariant
            n == raw@.len() <= size,
            n <= j <= size,
            r@.len() == j,
            forall|k: int| 0 <= k < n ==> r@[k] == raw@[k],
            forall|k: int| n <= k < j ==> r@[k] == FILL,
        decreases size - j,
    {
        r.push(FILL);
        j += 1;
    }
    r
}

/// Reads a window of `size` bytes at `off` out of an in-memory file image,
/// with `0xFF` fill past the image's end: the model of a positioned disk
/// read with end-of-file padding.
pub fn read_window(data: &Vec<u8>, off: u64, size: usize) -> (r: Vec<u8>)
    ensures
        r@ == window_spec(data@, off as int, size as int),
{
    let len = data.len();
    let mut r: Vec<u8> = Vec::with_capacity(size);
    let mut j: usize = 0;
    while j < size
        invariant
            len == data@.len(),
            j <= size,
            r@.len() == j,
            forall|k: int|
                0 <= k < j ==> r@[k] == (if off + k < data@.len() {
                    data@[off + k]
                } else {
                    FILL
                }),
        decreases size - j,
    {
        if off < len as u64 && (len as u64 - off) as u64 > j as u64 {
            r.push(data[(off + j as u64) as usize]);
        } else {
            r.push(FILL);
        }
        j += 1;
    }
    proof {
        assert(r@ =~= window_spec(data@, off as int, size as int));
    }
    r
}

} // verus!
