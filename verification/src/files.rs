//! The per-file record and the open-file table: each open file owns exactly
//! one window, one patch overlay, two undo/redo logs and its search hit
//! groups, and all access goes through the table's index.

use vstd::prelude::*;

use crate::block::Block;
use crate::data::Data;
use crate::decoder::decode_spec;
use crate::decoder::do_flush_input;
use crate::decoder::is_digit;
use crate::hits::HHits;
use crate::modes::element_display_size;
use crate::modes::element_mode_base;
use crate::modes::spec_element_display_size;
use crate::modes::spec_element_mode_base;
use crate::numeral::dec_digits;
use crate::numeral::u64_to_dec;
use crate::overlay::overlay_byte;
use crate::overlay::lemma_overlay_byte_congruence;
use crate::overlay::lemma_sorted_canonical;
use crate::overlay::patch_get;
use crate::overlay::PatchOverlay;
use crate::tabs::Tab;
use crate::tabs::Tabs;
use crate::undo::UndoRedo;

verus! {

/// The fields an undo or redo step never touches.
pub open spec fn unchanged_non_edit(f0: File, f1: File) -> bool {
    &&& f1.path@ == f0.path@
    &&& f1.size == f0.size
    &&& f1.block == f0.block
    &&& f1.hhits == f0.hhits
}

/// Exactly what one `do_undo` call does: up to two entries move from the
/// undo to the redo stack, and each popped entry's run is re-applied to the
/// overlay, the earlier-captured (pre-edit) entry last, so it wins at a
/// shared offset.
pub open spec fn undo_rel(f0: File, f1: File) -> bool {
    &&& unchanged_non_edit(f0, f1)
    &&& if f0.undo@.len() == 0 {
        &&& f1.undo@ == f0.undo@
        &&& f1.redo@ == f0.redo@
        &&& forall|o: u64| patch_get(f1.patch@, o) == patch_get(f0.patch@, o)
    } else if f0.undo@.len() == 1 {
        let a = f0.undo@.last();
        &&& f1.undo@.len() == 0
        &&& f1.redo@ == f0.redo@.push(a)
        &&& patch_get(f1.patch@, a.offset) == Some(a.data@)
        &&& forall|o: u64| o != a.offset ==> patch_get(f1.patch@, o) == patch_get(f0.patch@, o)
    } else {
        let a = f0.undo@.last();
        let b = f0.undo@[f0.undo@.len() - 2];
        &&& f1.undo@ == f0.undo@.drop_last().drop_last()
        &&& f1.redo@ == f0.redo@.push(a).push(b)
        &&& patch_get(f1.patch@, b.offset) == Some(b.data@)
        &&& (a.offset != b.offset ==> patch_get(f1.patch@, a.offset) == Some(a.data@))
        &&& forall|o: u64|
            o != a.offset && o != b.offset ==> patch_get(f1.patch@, o) == patch_get(
                f0.patch@,
                o,
            )
    }
}

/// Exactly what one `do_redo` call does: the mirror of `undo_rel`, moving
/// entries back from the redo to the undo stack.
pub open spec fn redo_rel(f0: File, f1: File) -> bool {
    &&& unchanged_non_edit(f0, f1)
    &&& if f0.redo@.len() == 0 {
        &&& f1.undo@ == f0.undo@
        &&& f1.redo@ == f0.redo@
        &&& forall|o: u64| patch_get(f1.patch@, o) == patch_get(f0.patch@, o)
    } else if f0.redo@.len() == 1 {
        let a = f0.redo@.last();
        &&& f1.redo@.len() == 0
        &&& f1.undo@ == f0.undo@.push(a)
        &&& patch_get(f1.patch@, a.offset) == Some(a.data@)
        &&& forall|o: u64| o != a.offset ==> patch_get(f1.patch@, o) == patch_get(f0.patch@, o)
    } else {
        let a = f0.redo@.last();
        let b = f0.redo@[f0.redo@.len() - 2];
        &&& f1.redo@ == f0.redo@.drop_last().drop_last()
        &&& f1.undo@ == f0.undo@.push(a).push(b)
        &&& patch_get(f1.patch@, b.offset) == Some(b.data@)
        &&& (a.offset != b.offset ==> patch_get(f1.patch@, a.offset) == Some(a.data@))
        &&& forall|o: u64|
            o != a.offset && o != b.offset ==> patch_get(f1.patch@, o) == patch_get(
                f0.patch@,
                o,
            )
    }
}

/// Undo/redo inverse law, forward half: after any single edit — the undo
/// stack ends with the edit's pre/post snapshot pair and the overlay holds
/// the post-edit run — `do_undo` followed by `do_redo` restores both logs
/// and the overlay exactly; with the window untouched, every byte a window
/// apply yields is back in the post-edit state.
pub proof fn lemma_undo_redo_inverse(f0: File, f1: File, f2: File)
    requires
        f0.wf(),
        f1.wf(),
        f2.wf(),
        f0.undo@.len() >= 2,
        f0.undo@.last().offset == f0.undo@[f0.undo@.len() - 2].offset,
        patch_get(f0.patch@, f0.undo@.last().offset) == Some(f0.undo@.last().data@),
        undo_rel(f0, f1),
        redo_rel(f1, f2),
    ensures
        f2.undo@ == f0.undo@,
        f2.redo@ == f0.redo@,
        f2.block == f0.block,
        f2.size == f0.size,
        f2.path@ == f0.path@,
        forall|o: u64| patch_get(f2.patch@, o) == patch_get(f0.patch@, o),
        forall|lo: int, hi: int, i: int|
            #![trigger overlay_byte(f2.patch@, lo, hi, i)]
            overlay_byte(f2.patch@, lo, hi, i) == overlay_byte(f0.patch@, lo, hi, i),
{
    let a = f0.undo@.last();
    let b = f0.undo@[f0.undo@.len() - 2];
    assert(f1.redo@ == f0.redo@.push(a).push(b));
    assert(f1.redo@.last() == b);
    assert(f1.redo@[f1.redo@.len() - 2] == a);
    assert(f1.redo@.drop_last().drop_last() =~= f0.redo@);
    assert(f2.redo@ == f0.redo@);
    assert(f2.undo@ == f1.undo@.push(b).push(a));
    assert(f2.undo@ =~= f0.undo@);
    assert forall|o: u64| patch_get(f2.patch@, o) == patch_get(f0.patch@, o) by {
        if o == a.offset {
            assert(patch_get(f2.patch@, o) == Some(a.data@));
        }
    }
    lemma_sorted_canonical(f2.patch@, f0.patch@);
    assert forall|lo: int, hi: int, i: int|
        #![trigger overlay_byte(f2.patch@, lo, hi, i)]
        overlay_byte(f2.patch@, lo, hi, i) == overlay_byte(f0.patch@, lo, hi, i) by {
        lemma_overlay_byte_congruence(f2.patch@, f0.patch@, lo, hi, i);
    }
}

/// Undo/redo inverse law, mirror half: on a redo stack exactly as an undo
/// left it — ending with the post/pre snapshot pair, the overlay holding
/// the pre-edit run — `do_redo` followed by `do_undo` restores both logs
/// and the overlay exactly.
pub proof fn lemma_redo_undo_inverse(f0: File, f1: File, f2: File)
    requires
        f0.wf(),
        f1.wf(),
        f2.wf(),
        f0.redo@.len() >= 2,
        f0.redo@.last().offset == f0.redo@[f0.redo@.len() - 2].offset,
        patch_get(f0.patch@, f0.redo@.last().offset) == Some(f0.redo@.last().data@),
        redo_rel(f0, f1),
        undo_rel(f1, f2),
    ensures
        f2.undo@ == f0.undo@,
        f2.redo@ == f0.redo@,
        f2.block == f0.block,
        f2.size == f0.size,
        f2.path@ == f0.path@,
        forall|o: u64| patch_get(f2.patch@, o) == patch_get(f0.patch@, o),
        forall|lo: int, hi: int, i: int|
            #![trigger overlay_byte(f2.patch@, lo, hi, i)]
            overlay_byte(f2.patch@, lo, hi, i) == overlay_byte(f0.patch@, lo, hi, i),
{
    let a = f0.redo@.last();
    let b = f0.redo@[f0.redo@.len() - 2];
    assert(f1.undo@ == f0.undo@.push(a).push(b));
    assert(f1.undo@.last() == b);
    assert(f1.undo@[f1.undo@.len() - 2] == a);
    assert(f1.undo@.drop_last().drop_last() =~= f0.undo@);
    assert(f2.undo@ == f0.undo@);
    assert(f2.redo@ == f1.redo@.push(b).push(a));
    assert(f2.redo@ =~= f0.redo@);
    assert forall|o: u64| patch_get(f2.patch@, o) == patch_get(f0.patch@, o) by {
        if o == a.offset {
            assert(patch_get(f2.patch@, o) == Some(a.data@));
        }
    }
    lemma_sorted_canonical(f2.patch@, f0.patch@);
    assert forall|lo: int, hi: int, i: int|
        #![trigger overlay_byte(f2.patch@, lo, hi, i)]
        overlay_byte(f2.patch@, lo, hi, i) == overlay_byte(f0.patch@, lo, hi, i) by {
        lemma_overlay_byte_congruence(f2.patch@, f0.patch@, lo, hi, i);
    }
}

/// Disk writes are aligned to regions of this many bytes.
pub const WRITE_BLOCK: u64 = 2048;

/// Everything the editor holds for one open file.
#[derive(Clone, Debug, PartialEq, Eq)]
pub struct File {
    pub path: String,
    pub size: u64,
    pub block: Block,
    pub patch: PatchOverlay,
    pub undo: UndoRedo,
    pub redo: UndoRedo,
    pub hhits: HHits,
}

impl File {
    /// The overlay keeps its key order and every log entry holds at least
    /// one byte (each snapshot captures a whole element).
    pub open spec fn wf(&self) -> bool {
        &&& self.patch.wf()
        &&& self.hhits.wf()
        &&& forall|i: int| 0 <= i < self.undo@.len() ==> (#[trigger] self.undo@[i]).data@.len()
            > 0
        &&& forall|i: int| 0 <= i < self.redo@.len() ==> (#[trigger] self.redo@[i]).data@.len()
            > 0
    }

    /// Installs freshly read window bytes: `source` becomes exactly what was
    /// read, `buffer` starts as a copy of it, the previous-load markers are
    /// updated so an unchanged window is not re-read, and the file's cached
    /// length is refreshed.
    pub fn load_block(&mut self, bytes: Vec<u8>, len: u64)
        ensures
            final(self).block.buffer@ == bytes@,
            final(self).block.source@ == bytes@,
            final(self).block.offset == old(self).block.offset,
            final(self).block.size == old(self).block.size,
            final(self).block.prev_offset == old(self).block.offset,
            final(self).block.prev_size == old(self).block.size,
            final(self).size == len,
            final(self).path@ == old(self).path@,
            final(self).patch == old(self).patch,
            final(self).undo == old(self).undo,
            final(self).redo == old(self).redo,
            final(self).hhits == old(self).hhits,
            old(self).wf() ==> final(self).wf(),
    {
        self.block.source = bytes;
        self.block.buffer = self.block.source.clone();
        self.block.prev_offset = self.block.offset;
        self.block.prev_size = self.block.size;
        self.size = len;
    }

    /// Rolls the most recent edit back: pops the post-edit and pre-edit
    /// snapshots, re-applies each to the overlay (the pre-edit bytes last),
    /// and moves both onto the redo stack. Popping fewer than two entries is
    /// tolerated; an empty log makes this a no-op.
    pub fn do_undo(&mut self)
        requires
            old(self).wf(),
        ensures
            final(self).wf(),
            undo_rel(*old(self), *final(self)),
    {
        let opt = self.undo.pop();
        match opt {
            Option::Some(data) => {
                let run = data.data.clone();
                self.patch.set(data.offset, run);
                self.redo.push(data);
            },
            Option::None => {},
        }
        let opt2 = self.undo.pop();
        match opt2 {
            Option::Some(data) => {
                let run = data.data.clone();
                self.patch.set(data.offset, run);
                self.redo.push(data);
            },
            Option::None => {},
        }
    }

    /// Replays the most recently undone edit: the mirror of `do_undo`,
    /// moving the snapshot pair back onto the undo stack and re-applying
    /// the post-edit bytes.
    pub fn do_redo(&mut self)
        requires
            old(self).wf(),
        ensures
            final(self).wf(),
            redo_rel(*old(self), *final(self)),
    {
        let opt = self.redo.pop();
        match opt {
            Option::Some(data) => {
                let run = data.data.clone();
                self.patch.set(data.offset, run);
                self.undo.push(data);
            },
            Option::None => {},
        }
        let opt2 = self.redo.pop();
        match opt2 {
            Option::Some(data) => {
                let run = data.data.clone();
                self.patch.set(data.offset, run);
                self.undo.push(data);
            },
            Option::None => {},
        }
    }

    /// One accepted keystroke of a numeric edit: the character (a hex digit,
    /// or `.` to leave the slot unchanged) lands in the tab's digit buffer,
    /// a full decode of the element's slots is attempted, and on success the
    /// element's little-endian run is spliced into the working buffer, the
    /// pre-edit and post-edit bytes are pushed onto the undo log, and the
    /// run is recorded in the overlay. The digit cursor always advances,
    /// wrapping within the element's width; a failed decode changes nothing
    /// else and is simply retried on the next keystroke.
    pub fn edit(&mut self, tab: &mut Tab, c: u8) -> (committed: bool)
        requires
            old(self).wf(),
            old(tab).wf(),
            is_digit(c, 16) || c == 0x2E,
            old(tab).spec_cursor_pos() + spec_element_display_size(old(tab).element_display)
                <= old(self).block.buffer@.len(),
            old(self).block.offset + old(tab).spec_cursor_pos() <= u64::MAX,
        ensures
            final(self).wf(),
            final(tab).wf(),
            ({
                let t0 = *old(tab);
                let f0 = *old(self);
                let iv1 = if c != 0x2E {
                    t0.insert_vector@.update(t0.insert_index as int, c)
                } else {
                    t0.insert_vector@
                };
                let w = spec_element_display_size(t0.element_display) as int;
                let dec = decode_spec(
                    iv1,
                    t0.spec_input_size(),
                    spec_element_display_size(t0.element_display),
                    spec_element_mode_base(t0.element_mode),
                );
                let pos = t0.spec_cursor_pos();
                let key = (f0.block.offset + pos) as u64;
                &&& final(tab).insert_vector@ == iv1
                &&& final(tab).insert_index == (if t0.insert_index + 1
                    >= t0.spec_input_size() {
                    0int
                } else {
                    t0.insert_index + 1
                })
                &&& *final(tab) == (Tab {
                    insert_vector: final(tab).insert_vector,
                    insert_index: final(tab).insert_index,
                    ..t0
                })
                &&& committed == (dec is Some)
                &&& final(self).path@ == f0.path@
                &&& final(self).size == f0.size
                &&& final(self).hhits == f0.hhits
                &&& final(self).redo == f0.redo
                &&& final(self).block.offset == f0.block.offset
                &&& final(self).block.size == f0.block.size
                &&& final(self).block.prev_offset == f0.block.prev_offset
                &&& final(self).block.prev_size == f0.block.prev_size
                &&& final(self).block.source == f0.block.source
                &&& if dec is Some {
                    let run = dec->Some_0;
                    &&& final(self).block.buffer@.len() == f0.block.buffer@.len()
                    &&& (forall|j: int|
                        0 <= j < f0.block.buffer@.len() ==> final(self).block.buffer@[j] == (
                        if pos <= j < pos + w {
                            run[j - pos]
                        } else {
                            f0.block.buffer@[j]
                        }))
                    &&& final(self).undo@.len() == f0.undo@.len() + 2
                    &&& (forall|i: int|
                        0 <= i < f0.undo@.len() ==> final(self).undo@[i] == f0.undo@[i])
                    &&& final(self).undo@[f0.undo@.len() as int].offset == key
                    &&& final(self).undo@[f0.undo@.len() as int].data@
                        == f0.block.buffer@.subrange(pos, pos + w)
                    &&& final(self).undo@.last().offset == key
                    &&& final(self).undo@.last().data@ == run
                    &&& patch_get(final(self).patch@, key) == Some(run)
                    &&& (forall|o: u64|
                        o != key ==> patch_get(final(self).patch@, o) == patch_get(
                            f0.patch@,
                            o,
                        ))
                } else {
                    &&& final(self).block.buffer == f0.block.buffer
                    &&& final(self).undo == f0.undo
                    &&& final(self).patch == f0.patch
                }
            }),
    {
        let size_e = element_display_size(tab.element_display);
        let insert_size = Tabs::element_input_size(tab);
        let base = element_mode_base(tab.element_mode);
        let colmask = tab.cursor_column & !(size_e - 1);
        let row = tab.cursor_row;
        let width = tab.print_width;
        proof {
            assert(width * row <= 0xFFFF * 0xFFFFusize) by (nonlinear_arith)
                requires
                    width <= 0xFFFF,
                    row <= 0xFFFF,
            ;
        }
        let pos = width * (row as usize) + (colmask as usize);
        let insert_index = tab.insert_index;
        if c != 0x2E {
            tab.insert_vector[insert_index] = c;
        }
        let mut vv: Vec<u8> = Vec::new();
        let got = do_flush_input(tab.insert_vector, insert_size, size_e, base, &mut vv);
        if got {
            let w = vv.len();
            let key = self.block.offset + pos as u64;
            let blen = self.block.buffer.len();
            let mut pre: Vec<u8> = Vec::with_capacity(w);
            let mut t: usize = 0;
            while t < w
                invariant
                    0 <= t <= w,
                    pos + w <= blen,
                    blen == self.block.buffer@.len(),
                    pre@.len() == t,
                    forall|i: int| 0 <= i < t ==> pre@[i] == self.block.buffer@[pos + i],
                    *self == *old(self),
                decreases w - t,
            {
                pre.push(self.block.buffer[pos + t]);
                t += 1;
            }
            proof {
                assert(pre@ =~= old(self).block.buffer@.subrange(pos as int, pos + w));
            }
            self.undo.push(Data::new(key, pre));
            let ghost buf0 = old(self).block.buffer@;
            let ghost s1 = *self;
            let mut t2: usize = 0;
            while t2 < w
                invariant
                    0 <= t2 <= w,
                    w == vv@.len(),
                    pos + w <= blen,
                    blen == buf0.len(),
                    self.block.buffer@.len() == buf0.len(),
                    self.path == s1.path,
                    self.size == s1.size,
                    self.patch == s1.patch,
                    self.undo == s1.undo,
                    self.redo == s1.redo,
                    self.hhits == s1.hhits,
                    self.block.source == s1.block.source,
                    self.block.offset == s1.block.offset,
                    self.block.size == s1.block.size,
                    self.block.prev_offset == s1.block.prev_offset,
                    self.block.prev_size == s1.block.prev_size,
                    forall|j: int|
                        0 <= j < buf0.len() ==> self.block.buffer@[j] == (if pos <= j < pos
                            + t2 {
                            vv@[j - pos]
                        } else {
                            buf0[j]
                        }),
                decreases w - t2,
            {
                let b = vv[t2];
                self.block.buffer[pos + t2] = b;
                t2 += 1;
            }
            let post = vv.clone();
            self.undo.push(Data::new(key, post));
            self.patch.set(key, vv);
        }
        let mut ni = insert_index + 1;
        if ni >= insert_size as usize {
            ni = 0;
        }
        tab.insert_index = ni;
        got
    }

    /// Resizes the window for the next load; a zero size is refused and
    /// leaves the window alone.
    pub fn set_block_size(&mut self, size: u64)
        ensures
            size > 0 ==> *final(self) == (File {
                block: (Block { size, ..old(self).block }),
                ..*old(self)
            }),
            size == 0 ==> *final(self) == *old(self),
    {
        if size > 0 {
            self.block.size = size;
        }
    }

    /// Moves the window for the next load.
    pub fn set_block_offset(&mut self, offset: u64)
        ensures
            *final(self) == (File { block: (Block { offset, ..old(self).block }), ..*old(self) }),
    {
        self.block.offset = offset;
    }

    /// Whether the window must be re-read from disk: its offset or size
    /// changed since the last load.
    pub fn need_block(&self) -> (r: bool)
        ensures
            r == (self.block.offset != self.block.prev_offset || self.block.size
                != self.block.prev_size),
    {
        self.block.offset != self.block.prev_offset || self.block.size != self.block.prev_size
    }
}

/// The table of open files and which of them is selected.
#[derive(Debug, PartialEq, Eq)]
pub struct Files {
    pub files: Vec<File>,
    pub index: usize,
}

impl Files {
    /// The selected index stays inside the table (0 when it is empty), and
    /// every record is well formed.
    pub open spec fn wf(&self) -> bool {
        &&& if self.files@.len() == 0 {
            self.index == 0
        } else {
            self.index < self.files@.len()
        }
        &&& forall|i: int| 0 <= i < self.files@.len() ==> (#[trigger] self.files@[i]).wf()
    }

    pub fn default() -> (r: Files)
        ensures
            r.files@.len() == 0,
            r.index == 0,
            r.wf(),
    {
        Files { files: Vec::new(), index: 0 }
    }

    /// Selects the next open file, wrapping at the end; no-op when none is
    /// open.
    pub fn next(&mut self)
        requires
            old(self).wf(),
        ensures
            final(self).wf(),
            final(self).files@ == old(self).files@,
            old(self).files@.len() == 0 ==> final(self).index == old(self).index,
            old(self).files@.len() > 0 ==> final(self).index == (old(self).index + 1) % (
            old(self).files@.len() as int),
    {
        if self.files.len() > 0 {
            self.index = (self.index + 1) % self.files.len();
        }
    }

    /// Selects the previous open file, wrapping to the end; no-op when none
    /// is open.
    pub fn previous(&mut self)
        requires
            old(self).wf(),
        ensures
            final(self).wf(),
            final(self).files@ == old(self).files@,
            old(self).files@.len() == 0 ==> final(self).index == old(self).index,
            old(self).files@.len() > 0 ==> final(self).index == (if old(self).index > 0 {
                old(self).index - 1
            } else {
                old(self).files@.len() - 1
            }),
    {
        if self.files.len() > 0 {
            if self.index > 0 {
                self.index -= 1;
            } else {
                self.index = self.files.len() - 1;
            }
        }
    }

    /// A fresh record for one file: an unloaded default-size window, an
    /// empty overlay, empty logs and no hit groups.
    pub fn new(path: String) -> (r: File)
        ensures
            r.path@ == path@,
            r.size == 0,
            r.block.buffer@.len() == 0,
            r.block.source@.len() == 0,
            r.block.offset == 0,
            r.block.size == 2048,
            r.block.prev_offset == 0,
            r.block.prev_size == 0,
            r.patch@.len() == 0,
            r.undo@.len() == 0,
            r.redo@.len() == 0,
            r.hhits.hits@.len() == 0,
            r.hhits.selected == 0,
            r.wf(),
    {
        File {
            path,
            size: 0u64,
            block: Block::new(2048usize),
            patch: PatchOverlay::new(),
            undo: UndoRedo::new(),
            redo: UndoRedo::new(),
            hhits: HHits::default(),
        }
    }

    /// Opens a file: appends a fresh record and a tab to show it, titled
    /// `tab` followed by the prior tab count in decimal.
    pub fn add(&mut self, path: String, tabs: &mut Tabs)
        requires
            old(self).wf(),
        ensures
            final(self).wf(),
            final(self).index == old(self).index,
            final(self).files@.len() == old(self).files@.len() + 1,
            forall|i: int| 0 <= i < old(self).files@.len() ==> final(self).files@[i] == old(
                self,
            ).files@[i],
            ({
                let f = final(self).files@.last();
                &&& f.path@ == path@
                &&& f.size == 0
                &&& f.block.buffer@.len() == 0
                &&& f.block.source@.len() == 0
                &&& f.block.offset == 0
                &&& f.block.size == 2048
                &&& f.block.prev_offset == 0
                &&& f.block.prev_size == 0
                &&& f.patch@.len() == 0
                &&& f.undo@.len() == 0
                &&& f.redo@.len() == 0
                &&& f.hhits.hits@.len() == 0
                &&& f.hhits.selected == 0
                &&& f.wf()
            }),
            final(tabs).tabs@.len() == old(tabs).tabs@.len() + 1,
            final(tabs).index == old(tabs).index,
            forall|i: int| 0 <= i < old(tabs).tabs@.len() ==> final(tabs).tabs@[i] == old(
                tabs,
            ).tabs@[i],
            final(tabs).tabs@.last().title@ == "tab"@ + dec_digits(
                old(tabs).tabs@.len() as int,
            ),
            final(tabs).tabs@.last().wf(),
    {
        let num = u64_to_dec(tabs.tabs.len() as u64);
        let title = String::from_str("tab").concat(num.as_str());
        self.files.push(Self::new(path));
        tabs.add(title);
    }

    /// The record of the file at `index`, for reading or updating in place.
    pub fn current(&mut self, index: usize) -> (r: &mut File)
        requires
            index < old(self).files@.len(),
        ensures
            *r == old(self).files@[index as int],
            final(self).index == old(self).index,
            final(self).files@ == old(self).files@.update(index as int, *final(r)),
    {
        &mut self.files[index]
    }

    /// The path of the file the active tab shows.
    pub fn current_path(&mut self, tabs: &mut Tabs) -> (r: &String)
        requires
            old(tabs).wf(),
            old(tabs).tabs@.len() > 0,
            old(tabs).tabs@[old(tabs).index as int].fileitem_index < old(self).files@.len(),
        ensures
            *final(self) == *old(self),
            *final(tabs) == *old(tabs),
            r@ == old(self).files@[old(tabs).tabs@[old(tabs).index as int].fileitem_index as int].path@,
    {
        let file_index = tabs.file_index();
        &self.files[file_index].path
    }

    /// Splices every pending run whose key falls inside the window onto the
    /// window's working buffer, in ascending key order so that a later run
    /// supersedes an earlier one, clipping any run that extends past the
    /// buffer's end.
    pub fn do_apply_patch(block: &mut Block, patch: &PatchOverlay)
        requires
            patch.wf(),
            old(block).offset + old(block).size <= u64::MAX,
        ensures
            final(block).buffer@.len() == old(block).buffer@.len(),
            final(block).source == old(block).source,
            final(block).offset == old(block).offset,
            final(block).size == old(block).size,
            final(block).prev_offset == old(block).prev_offset,
            final(block).prev_size == old(block).prev_size,
            ({
                let min = old(block).offset as int;
                let hi = min + (if old(block).size <= old(block).buffer@.len() {
                    old(block).size as int
                } else {
                    old(block).buffer@.len() as int
                });
                forall|j: int|
                    0 <= j < old(block).buffer@.len() ==> final(block).buffer@[j] == (
                    match overlay_byte(patch@, min, hi, min + j) {
                        Option::Some(b) => b,
                        Option::None => old(block).buffer@[j],
                    })
            }),
    {
        let min = block.offset;
        let max = block.offset + block.size;
        let blen = block.buffer.len();
        let ghost hi = min + (if old(block).size <= old(block).buffer@.len() {
            old(block).size as int
        } else {
            old(block).buffer@.len() as int
        });
        let n = patch.len();
        let mut k: usize = 0;
        while k < n
            invariant
                patch.wf(),
                n == patch@.len(),
                0 <= k <= n,
                min == old(block).offset,
                max == old(block).offset + old(block).size,
                blen == old(block).buffer@.len(),
                hi == min + (if old(block).size <= old(block).buffer@.len() {
                    old(block).size as int
                } else {
                    old(block).buffer@.len() as int
                }),
                block.buffer@.len() == blen,
                block.source == old(block).source,
                block.offset == old(block).offset,
                block.size == old(block).size,
                block.prev_offset == old(block).prev_offset,
                block.prev_size == old(block).prev_size,
                forall|j: int|
                    0 <= j < blen ==> block.buffer@[j] == (match overlay_byte(
                        patch@.take(k as int),
                        min as int,
                        hi,
                        min + j,
                    ) {
                        Option::Some(b) => b,
                        Option::None => old(block).buffer@[j],
                    }),
            decreases n - k,
        {
            let ghost pre_buf = block.buffer@;
            let e_offset = patch.entry_at(k).offset;
            proof {
                assert(patch@.take(k + 1).drop_last() =~= patch@.take(k as int));
                assert(patch@.take(k + 1).last() == patch@[k as int]);
            }
            if e_offset >= min && e_offset < max && e_offset - min < blen as u64 {
                let bmin = (e_offset - min) as usize;
                let rl = patch.entry_at(k).data.len();
                let mut t: usize = 0;
                while t < rl && bmin + t < blen
                    invariant
                        patch.wf(),
                        k < n == patch@.len(),
                        rl == patch@[k as int].data@.len(),
                        e_offset == patch@[k as int].offset,
                        min <= e_offset && e_offset < max && e_offset - min < blen,
                        bmin == e_offset - min,
                        blen == pre_buf.len(),
                        0 <= t <= rl,
                        bmin + t <= blen,
                        block.buffer@.len() == blen,
                        block.source == old(block).source,
                        block.offset == old(block).offset,
                        block.size == old(block).size,
                        block.prev_offset == old(block).prev_offset,
                        block.prev_size == old(block).prev_size,
                        forall|j: int|
                            0 <= j < blen && !(bmin <= j < bmin + t) ==> block.buffer@[j]
                                == pre_buf[j],
                        forall|j: int|
                            bmin <= j < bmin + t ==> block.buffer@[j] == patch@[k as int].data@[j
                                - bmin],
                    decreases rl - t,
                {
                    let b = patch.entry_at(k).data[t];
                    block.buffer[bmin + t] = b;
                    t += 1;
                }
                proof {
                    let sk1 = patch@.take(k + 1);
                    let e = patch@[k as int];
                    assert(min <= e.offset < hi);
                    assert(t == rl || bmin + t == blen);
                    assert forall|j: int| 0 <= j < blen implies block.buffer@[j] == (
                    match overlay_byte(sk1, min as int, hi, min + j) {
                        Option::Some(b) => b,
                        Option::None => old(block).buffer@[j],
                    }) by {
                        if crate::overlay::covers(e, min + j) {
                            assert(bmin <= j < bmin + rl);
                            assert(j < bmin + t);
                            assert(block.buffer@[j] == e.data@[j - bmin]);
                            assert(overlay_byte(sk1, min as int, hi, min + j) == Some(
                                e.data@[min + j - e.offset],
                            ));
                        } else {
                            assert(!(bmin <= j < bmin + t));
                            assert(block.buffer@[j] == pre_buf[j]);
                            assert(overlay_byte(sk1, min as int, hi, min + j) == overlay_byte(
                                patch@.take(k as int),
                                min as int,
                                hi,
                                min + j,
                            ));
                        }
                    }
                }
            } else {
                proof {
                    let sk1 = patch@.take(k + 1);
                    let e = patch@[k as int];
                    assert(!(min <= e.offset < hi));
                    assert forall|j: int| 0 <= j < blen implies block.buffer@[j] == (
                    match overlay_byte(sk1, min as int, hi, min + j) {
                        Option::Some(b) => b,
                        Option::None => old(block).buffer@[j],
                    }) by {
                        assert(overlay_byte(sk1, min as int, hi, min + j) == overlay_byte(
                            patch@.take(k as int),
                            min as int,
                            hi,
                            min + j,
                        ));
                    }
                }
            }
            k += 1;
        }
        proof {
            assert(patch@.take(n as int) =~= patch@);
        }
    }
}

} // verus!
