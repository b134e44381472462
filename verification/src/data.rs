//! A byte run anchored at an absolute file offset: the unit stored in the
//! patch overlay and in the undo/redo logs.

use vstd::prelude::*;

verus! {

/// A replacement byte run at an absolute file offset.
#[derive(Clone, Debug, PartialEq, Eq)]
pub struct Data {
    pub offset: u64,
    pub data: Vec<u8>,
}

impl Data {
    pub fn new(offset: u64, data: Vec<u8>) -> (r: Data)
        ensures
            r.offset == offset,
            r.data@ == data@,
    {
        Data { offset, data }
    }
}

} // verus!
