//! Per-view state: which file a tab shows, how its window is rendered, and
//! where the edit cursor stands inside the printed page. The digit buffer a
//! pending numeric edit accumulates into also lives here.

use vstd::prelude::*;

use crate::modes::element_display_size;
use crate::modes::element_mode_size;
use crate::modes::spec_element_display_size;
use crate::modes::spec_element_mode_size;
use crate::modes::AsmDisplay;
use crate::modes::Display;
use crate::modes::ElementDisplay;
use crate::modes::ElementMode;
use crate::modes::PrintDisplay;
use crate::modes::VisualDisplay;

verus! {

/// One view onto a file: rendering modes, cursor position, and the
/// fixed-capacity digit buffer edits accumulate into. The buffer's 64 slots
/// cover the widest element (8 bytes of 8 binary digits each).
#[derive(Clone, Debug, PartialEq, Eq)]
pub struct Tab {
    pub title: String,
    pub fileitem_index: usize,
    pub print_width: usize,
    pub print_height: u16,
    pub display: Display,
    pub element_display: ElementDisplay,
    pub print_display: PrintDisplay,
    pub element_mode: ElementMode,
    pub asm_display: AsmDisplay,
    pub visual_display: VisualDisplay,
    pub insert_mode: bool,
    pub insert_index: usize,
    pub insert_vector: [u8; 64],
    pub cursor_row: u16,
    pub cursor_column: u16,
}

impl Tab {
    /// The page stays within a renderable width and the digit cursor within
    /// the buffer.
    pub open spec fn wf(&self) -> bool {
        self.print_width <= 0xFFFF && self.insert_index < 64
    }

    /// The number of digit slots one full element takes in this tab's mode.
    pub open spec fn spec_input_size(&self) -> u16 {
        (spec_element_display_size(self.element_display) * spec_element_mode_size(
            self.element_mode,
        )) as u16
    }

    /// The window-relative byte position under this tab's cursor: the row
    /// times the page width, plus the column snapped down to the element
    /// grid.
    pub open spec fn spec_cursor_pos(&self) -> int {
        self.print_width * self.cursor_row + (self.cursor_column & !((
        spec_element_display_size(self.element_display) - 1) as u16))
    }
}

/// The open tabs and which of them is active.
#[derive(Clone, Debug, PartialEq, Eq)]
pub struct Tabs {
    pub tabs: Vec<Tab>,
    pub index: usize,
}

impl Tabs {
    /// The active index stays inside the collection (0 when it is empty).
    pub open spec fn wf(&self) -> bool {
        if self.tabs@.len() == 0 {
            self.index == 0
        } else {
            self.index < self.tabs@.len()
        }
    }

    pub fn default() -> (r: Tabs)
        ensures
            r.tabs@.len() == 0,
            r.index == 0,
            r.wf(),
    {
        Tabs { tabs: Vec::new(), index: 0 }
    }

    /// Activates the next tab, wrapping at the end; no-op when none is open.
    pub fn next(&mut self)
        requires
            old(self).wf(),
        ensures
            final(self).wf(),
            final(self).tabs@ == old(self).tabs@,
            old(self).tabs@.len() == 0 ==> final(self).index == old(self).index,
            old(self).tabs@.len() > 0 ==> final(self).index == (old(self).index + 1) % (
            old(self).tabs@.len() as int),
    {
        if self.tabs.len() > 0 {
            self.index = (self.index + 1) % self.tabs.len();
        }
    }

    /// Activates the previous tab, wrapping to the end; no-op when none is
    /// open.
    pub fn previous(&mut self)
        requires
            old(self).wf(),
        ensures
            final(self).wf(),
            final(self).tabs@ == old(self).tabs@,
            old(self).tabs@.len() == 0 ==> final(self).index == old(self).index,
            old(self).tabs@.len() > 0 ==> final(self).index == (if old(self).index > 0 {
                old(self).index - 1
            } else {
                old(self).tabs@.len() - 1
            }),
    {
        if self.tabs.len() > 0 {
            if self.index > 0 {
                self.index -= 1;
            } else {
                self.index = self.tabs.len() - 1;
            }
        }
    }

    /// Opens a new tab with default rendering modes, showing the first file.
    pub fn add(&mut self, title: String)
        ensures
            final(self).index == old(self).index,
            final(self).tabs@.len() == old(self).tabs@.len() + 1,
            forall|i: int| 0 <= i < old(self).tabs@.len() ==> final(self).tabs@[i] == old(
                self,
            ).tabs@[i],
            ({
                let t = final(self).tabs@.last();
                &&& t.title@ == title@
                &&& t.fileitem_index == 0
                &&& t.print_width == 16
                &&& t.print_height == 1
                &&& t.display == Display::Element
                &&& t.element_display == ElementDisplay::Byte
                &&& t.print_display == PrintDisplay::ASCIIPrint
                &&& t.element_mode == ElementMode::Hex
                &&& t.asm_display == AsmDisplay::Nasm
                &&& t.visual_display == VisualDisplay::Color
                &&& t.insert_mode == false
                &&& t.insert_index == 0
                &&& (forall|i: int| 0 <= i < 64 ==> t.insert_vector[i] == 0)
                &&& t.cursor_row == 0
                &&& t.cursor_column == 0
                &&& t.wf()
            }),
    {
        let new_tab = Tab {
            title,
            fileitem_index: 0,
            print_width: 16,
            print_height: 1,
            display: Display::Element,
            element_display: ElementDisplay::Byte,
            print_display: PrintDisplay::ASCIIPrint,
            element_mode: ElementMode::Hex,
            asm_display: AsmDisplay::Nasm,
            visual_display: VisualDisplay::Color,
            insert_mode: false,
            insert_index: 0,
            insert_vector: [0u8; 64],
            cursor_row: 0,
            cursor_column: 0,
        };
        self.tabs.push(new_tab);
    }

    /// The active tab, for reading or updating in place.
    pub fn current(&mut self) -> (r: &mut Tab)
        requires
            old(self).wf(),
            old(self).tabs@.len() > 0,
        ensures
            *r == old(self).tabs@[old(self).index as int],
            final(self).index == old(self).index,
            final(self).tabs@ == old(self).tabs@.update(old(self).index as int, *final(r)),
    {
        let tab_index = self.index;
        &mut self.tabs[tab_index]
    }

    /// Which file the active tab shows.
    pub fn file_index(&mut self) -> (r: usize)
        requires
            old(self).wf(),
            old(self).tabs@.len() > 0,
        ensures
            *final(self) == *old(self),
            r == old(self).tabs@[old(self).index as int].fileitem_index,
    {
        self.tabs[self.index].fileitem_index
    }

    /// The window-relative byte position under the cursor: the printed row
    /// times the page width, plus the cursor column snapped down to the
    /// active element's size.
    pub fn cursor_pos(&mut self) -> (r: usize)
        requires
            old(self).wf(),
            old(self).tabs@.len() > 0,
            old(self).tabs@[old(self).index as int].wf(),
        ensures
            *final(self) == *old(self),
            ({
                let t = old(self).tabs@[old(self).index as int];
                let size = spec_element_display_size(t.element_display);
                r == t.print_width * t.cursor_row + (t.cursor_column & !((size - 1) as u16))
            }),
    {
        let t = &self.tabs[self.index];
        let size = element_display_size(t.element_display);
        let print_width = t.print_width;
        let column = t.cursor_column & !(size - 1);
        let row = t.cursor_row;
        proof {
            let tg = old(self).tabs@[old(self).index as int];
            assert(print_width * row <= 0xFFFF * 0xFFFFusize) by (nonlinear_arith)
                requires
                    print_width <= 0xFFFF,
                    row <= 0xFFFF,
            ;
            let cc = tg.cursor_column;
            let mask = (spec_element_display_size(tg.element_display) - 1) as u16;
            assert(cc & !mask <= cc) by (bit_vector);
        }
        print_width * row as usize + column as usize
    }

    /// How many digit slots the active element fills: bytes per element
    /// times digits per byte.
    pub fn element_input_size(tab: &mut Tab) -> (r: u16)
        ensures
            *final(tab) == *old(tab),
            r == old(tab).spec_input_size(),
            2 <= r <= 64,
    {
        let a = element_display_size(tab.element_display);
        let b = element_mode_size(tab.element_mode);
        proof {
            assert(2 <= a * b <= 64) by (nonlinear_arith)
                requires
                    1 <= a <= 8,
                    2 <= b <= 8,
            ;
        }
        a * b
    }

    /// Switches the active tab's numeric base when `mode` names one of
    /// `hex`, `dec`, `oct`, `bin`; any other name leaves it unchanged.
    pub fn element_mode(&mut self, mode: String)
        requires
            old(self).wf(),
            old(self).tabs@.len() > 0,
        ensures
            final(self).wf(),
            final(self).index == old(self).index,
            ({
                let t = old(self).tabs@[old(self).index as int];
                let m = if mode@ == "hex"@ {
                    ElementMode::Hex
                } else if mode@ == "dec"@ {
                    ElementMode::Dec
                } else if mode@ == "oct"@ {
                    ElementMode::Oct
                } else if mode@ == "bin"@ {
                    ElementMode::Bin
                } else {
                    t.element_mode
                };
                final(self).tabs@ == old(self).tabs@.update(
                    old(self).index as int,
                    (Tab { element_mode: m, ..t }),
                )
            }),
    {
        let hex = String::from_str("hex");
        let dec = String::from_str("dec");
        let oct = String::from_str("oct");
        let bin = String::from_str("bin");
        if mode == hex {
            self.current().element_mode = ElementMode::Hex;
        } else if mode == dec {
            self.current().element_mode = ElementMode::Dec;
        } else if mode == oct {
            self.current().element_mode = ElementMode::Oct;
        } else if mode == bin {
            self.current().element_mode = ElementMode::Bin;
        } else {
            proof {
                assert(old(self).tabs@ =~= old(self).tabs@.update(
                    old(self).index as int,
                    old(self).tabs@[old(self).index as int],
                ));
            }
        }
    }

    /// Advances the digit cursor one slot, wrapping to the first slot past
    /// the element's last digit.
    pub fn insert_index_next(&mut self)
        requires
            old(self).wf(),
            old(self).tabs@.len() > 0,
            old(self).tabs@[old(self).index as int].wf(),
    ensures
            final(self).wf(),
            final(self).index == old(self).index,
            ({
                let t = old(self).tabs@[old(self).index as int];
                let next = if t.insert_index + 1 >= t.spec_input_size() {
                    0
                } else {
                    t.insert_index + 1
                };
                final(self).tabs@ == old(self).tabs@.update(
                    old(self).index as int,
                    (Tab { insert_index: next as usize, ..t }),
                ) && final(self).tabs@[old(self).index as int].wf()
            }),
    {
        let insert_size = Self::element_input_size(self.current());
        let mut insert_index = self.current().insert_index;
        insert_index += 1;
        if insert_index >= insert_size as usize {
            insert_index = 0;
        }
        self.current().insert_index = insert_index;
    }

    /// Moves the cursor one element left, snapping to the element grid;
    /// stops at the row's start.
    pub fn cursor_left(&mut self)
        requires
            old(self).wf(),
            old(self).tabs@.len() > 0,
        ensures
            final(self).wf(),
            final(self).index == old(self).index,
            ({
                let t = old(self).tabs@[old(self).index as int];
                let size = spec_element_display_size(t.element_display);
                let snapped = t.cursor_column & !((size - 1) as u16);
                let moved = if snapped >= size {
                    (snapped - size) as u16
                } else {
                    snapped
                };
                final(self).tabs@ == old(self).tabs@.update(
                    old(self).index as int,
                    (Tab { cursor_column: (moved & !((size - 1) as u16)) as u16, ..t }),
                )
            }),
    {
        let size = element_display_size(self.current().element_display);
        let mut column = self.current().cursor_column;
        column &= !(size - 1) as u16;
        if column >= size {
            column -= size;
        }
        self.current().cursor_column = column & !(size - 1) as u16;
    }

    /// Moves the cursor one element right, snapping to the element grid;
    /// stops at the row's last whole element.
    pub fn cursor_right(&mut self)
        requires
            old(self).wf(),
            old(self).tabs@.len() > 0,
            old(self).tabs@[old(self).index as int].wf(),
            spec_element_display_size(
                old(self).tabs@[old(self).index as int].element_display,
            ) <= old(self).tabs@[old(self).index as int].print_width,
        ensures
            final(self).wf(),
            final(self).index == old(self).index,
            ({
                let t = old(self).tabs@[old(self).index as int];
                let size = spec_element_display_size(t.element_display);
                let width = t.print_width as u16;
                let snapped = t.cursor_column & !((size - 1) as u16);
                let moved = if snapped < width - size {
                    (snapped + size) as u16
                } else {
                    (width - size) as u16
                };
                final(self).tabs@ == old(self).tabs@.update(
                    old(self).index as int,
                    (Tab { cursor_column: (moved & !((size - 1) as u16)) as u16, ..t }),
                )
            }),
    {
        let size = element_display_size(self.current().element_display);
        let width = self.current().print_width as u16;
        let mut column = self.current().cursor_column;
        column &= !(size - 1) as u16;
        proof {
            let t = old(self).tabs@[old(self).index as int];
            let cc = t.cursor_column;
            let mask = (spec_element_display_size(t.element_display) - 1) as u16;
            assert(cc & !mask <= cc) by (bit_vector);
        }
        if column < width - size {
            column += size;
        } else {
            column = width - size;
        }
        self.current().cursor_column = column & !(size - 1) as u16;
    }
}

} // verus!
