//! Core engine of an interactive binary file editor: a bounded in-memory
//! window onto a file, an overlay of pending byte edits, undo/redo logs,
//! a keystroke decoder for numeric edits, aligned read-modify-write flush
//! planning, and chunked pattern search.

mod block;
mod data;
mod decoder;
mod files;
mod flush;
mod hits;
mod modes;
mod numeral;
mod overlay;
mod search;
mod tabs;
mod undo;

pub use block::Block;
pub use block::pad_read;
pub use block::read_window;
pub use block::window_spec;
pub use block::FILL;
pub use data::Data;
pub use decoder::decode_spec;
pub use decoder::do_flush_input;
pub use decoder::is_digit;
pub use decoder::le_bytes_spec;
pub use decoder::parse_spec;
pub use decoder::parse_uint;
pub use decoder::spec_digit;
pub use decoder::to_le_bytes;
pub use decoder::width_max;
pub use files::lemma_redo_undo_inverse;
pub use files::lemma_undo_redo_inverse;
pub use files::redo_rel;
pub use files::unchanged_non_edit;
pub use files::undo_rel;
pub use files::File;
pub use files::Files;
pub use files::WRITE_BLOCK;
pub use flush::align_down;
pub use flush::flushed_byte;
pub use flush::lemma_flush_minimality;
pub use flush::lemma_flush_reload;
pub use flush::lemma_flush_round_trip;
pub use flush::lemma_plan_from_entries;
pub use flush::patch_bounds;
pub use flush::plan_regions;
pub use flush::plan_contains;
pub use flush::prev_of;
pub use flush::region_of;
pub use flush::round_up;
pub use flush::spec_plan;
pub use flush::Region;
pub use hits::HHits;
pub use hits::Hits;
pub use modes::element_display_size;
pub use modes::element_mode_base;
pub use modes::element_mode_size;
pub use modes::spec_element_display_size;
pub use modes::spec_element_mode_base;
pub use modes::spec_element_mode_size;
pub use modes::AsmDisplay;
pub use modes::Display;
pub use modes::ElementDisplay;
pub use modes::ElementMode;
pub use modes::PrintDisplay;
pub use modes::VisualDisplay;
pub use numeral::dec_digits;
pub use numeral::digit_char;
pub use numeral::u64_to_dec;
pub use overlay::covers;
pub use overlay::lemma_overlay_byte_congruence;
pub use overlay::lemma_patch_get_by_index;
pub use overlay::lemma_sorted_canonical;
pub use overlay::nonempty_runs;
pub use overlay::overlay_byte;
pub use overlay::patch_get;
pub use overlay::sorted;
pub use overlay::PatchOverlay;
pub use search::first_match_from;
pub use search::is_match_at;
pub use search::lemma_search_complete;
pub use search::scan_spec;
pub use search::search_chunk;
pub use search::search_scan;
pub use search::CHUNK;
pub use tabs::Tab;
pub use tabs::Tabs;
pub use undo::UndoRedo;
