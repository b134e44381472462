//! Display and edit modes: what granularity a window is rendered and edited
//! at, and in which numeric base keystrokes are decoded.

use vstd::prelude::*;

verus! {

/// Which renderer a tab uses for its window.
#[derive(Copy, Clone, PartialEq, Eq, Structural, Debug)]
pub enum Display {
    Element,
    Asm,
    Print,
    Visual,
}

/// The numeric unit one edit decodes into: 1, 2, 4 or 8 bytes.
#[derive(Copy, Clone, PartialEq, Eq, Structural, Debug)]
pub enum ElementDisplay {
    Byte,
    Word,
    DWord,
    QWord,
}

/// How text renderings escape or print bytes.
#[derive(Copy, Clone, PartialEq, Eq, Structural, Debug)]
pub enum PrintDisplay {
    ASCIIPrint,
    ASCIIEscape,
    UnicodePrint,
    UnicodeEscape,
}

/// Which visual summary a tab shows.
#[derive(Copy, Clone, PartialEq, Eq, Structural, Debug)]
pub enum VisualDisplay {
    Color,
    Entropy,
}

/// The numeric base keystrokes are decoded against.
#[derive(Copy, Clone, PartialEq, Eq, Structural, Debug)]
pub enum ElementMode {
    Hex,
    Dec,
    Oct,
    Bin,
}

/// Which assembler syntax a disassembly listing uses.
#[derive(Copy, Clone, PartialEq, Eq, Structural, Debug)]
pub enum AsmDisplay {
    Nasm,
    Masm,
    Gas,
    Intel,
}

/// How many bytes one element of the given granularity holds.
pub fn element_display_size(display: ElementDisplay) -> (r: u16)
    ensures
        r == spec_element_display_size(display),
{
    match display {
        ElementDisplay::Byte => 1,
        ElementDisplay::Word => 2,
        ElementDisplay::DWord => 4,
        ElementDisplay::QWord => 8,
    }
}

pub open spec fn spec_element_display_size(display: ElementDisplay) -> u16 {
    match display {
        ElementDisplay::Byte => 1u16,
        ElementDisplay::Word => 2u16,
        ElementDisplay::DWord => 4u16,
        ElementDisplay::QWord => 8u16,
    }
}

/// How many digit slots one byte takes in the given base.
pub fn element_mode_size(mode: ElementMode) -> (r: u16)
    ensures
        r == spec_element_mode_size(mode),
{
    match mode {
        ElementMode::Hex => 2,
        ElementMode::Dec => 3,
        ElementMode::Oct => 3,
        ElementMode::Bin => 8,
    }
}

pub open spec fn spec_element_mode_size(mode: ElementMode) -> u16 {
    match mode {
        ElementMode::Hex => 2u16,
        ElementMode::Dec => 3u16,
        ElementMode::Oct => 3u16,
        ElementMode::Bin => 8u16,
    }
}

/// The numeric base the given mode decodes digits in.
pub fn element_mode_base(mode: ElementMode) -> (r: u32)
    ensures
        r == spec_element_mode_base(mode),
{
    match mode {
        ElementMode::Hex => 16,
        ElementMode::Dec => 10,
        ElementMode::Oct => 8,
        ElementMode::Bin => 2,
    }
}

pub open spec fn spec_element_mode_base(mode: ElementMode) -> u32 {
    match mode {
        ElementMode::Hex => 16u32,
        ElementMode::Dec => 10u32,
        ElementMode::Oct => 8u32,
        ElementMode::Bin => 2u32,
    }
}

} // verus!
