use hexcore::pad_read;
use hexcore::read_window;
use hexcore::Block;
use hexcore::Data;
use hexcore::Files;
use hexcore::PatchOverlay;
use hexcore::UndoRedo;

#[test]
fn padding_past_end_of_file() {
    let data: Vec<u8> = (0u8..100).collect();
    let w = read_window(&data, 50, 100);
    assert_eq!(w.len(), 100);
    for j in 0..50 {
        assert_eq!(w[j], (50 + j) as u8);
    }
    for j in 50..100 {
        assert_eq!(w[j], 0xFF);
    }
}

#[test]
fn window_wholly_past_end_is_all_fill() {
    let data: Vec<u8> = vec![1, 2, 3];
    let w = read_window(&data, 10, 8);
    assert_eq!(w, vec![0xFF; 8]);
}

#[test]
fn pad_read_fills_short_reads() {
    let raw: Vec<u8> = vec![9, 8, 7];
    let w = pad_read(&raw, 6);
    assert_eq!(w, vec![9, 8, 7, 0xFF, 0xFF, 0xFF]);
}

#[test]
fn block_new_is_sized_but_unloaded() {
    let b = Block::new(2048);
    assert_eq!(b.buffer.len(), 0);
    assert_eq!(b.source.len(), 0);
    assert_eq!(b.size, 2048);
    assert_eq!(b.offset, 0);
}

#[test]
fn overlay_set_lookup_replace() {
    let mut p = PatchOverlay::new();
    assert!(p.is_empty());
    p.set(5, vec![1, 2, 3]);
    p.set(2, vec![4]);
    assert_eq!(p.lookup(5), Some(&vec![1, 2, 3]));
    assert_eq!(p.lookup(2), Some(&vec![4]));
    assert_eq!(p.lookup(7), None);
    p.set(5, vec![9]);
    assert_eq!(p.lookup(5), Some(&vec![9]));
    assert_eq!(p.len(), 2);
    assert_eq!(p.entry_at(0).offset, 2);
    assert_eq!(p.entry_at(1).offset, 5);
    p.clear();
    assert_eq!(p.len(), 0);
    assert_eq!(p.lookup(5), None);
}

#[test]
fn apply_splices_runs_in_key_order() {
    let mut block = Block::new(4);
    block.offset = 10;
    block.size = 4;
    block.buffer = vec![0, 0, 0, 0];
    let mut p = PatchOverlay::new();
    p.set(10, vec![1, 2]);
    p.set(11, vec![7]);
    Files::do_apply_patch(&mut block, &p);
    // the later key supersedes the earlier run where they overlap
    assert_eq!(block.buffer, vec![1, 7, 0, 0]);
}

#[test]
fn apply_ignores_keys_outside_the_window() {
    let mut block = Block::new(4);
    block.offset = 10;
    block.size = 4;
    block.buffer = vec![0, 0, 0, 0];
    let mut p = PatchOverlay::new();
    // key before the window: not applied even though its run reaches in
    p.set(9, vec![5, 5]);
    // key past the window's end
    p.set(14, vec![6]);
    Files::do_apply_patch(&mut block, &p);
    assert_eq!(block.buffer, vec![0, 0, 0, 0]);
}

#[test]
fn apply_clips_a_run_at_the_buffer_end() {
    let mut block = Block::new(4);
    block.offset = 10;
    block.size = 4;
    block.buffer = vec![0, 0, 0, 0];
    let mut p = PatchOverlay::new();
    p.set(13, vec![8, 9, 10]);
    Files::do_apply_patch(&mut block, &p);
    assert_eq!(block.buffer, vec![0, 0, 0, 8]);
}

#[test]
fn undo_redo_stack_order() {
    let mut u = UndoRedo::new();
    assert_eq!(u.pop(), None);
    u.push(Data::new(1, vec![1]));
    u.push(Data::new(2, vec![2]));
    let top = u.pop().unwrap();
    assert_eq!(top.offset, 2);
    assert_eq!(top.data, vec![2]);
    let next = u.pop().unwrap();
    assert_eq!(next.offset, 1);
    assert_eq!(u.pop(), None);
}

#[test]
fn need_block_tracks_the_last_load() {
    let mut f = Files::new(String::from("x"));
    assert!(f.need_block());
    let bytes = vec![0u8; 2048];
    f.load_block(bytes, 2048);
    assert!(!f.need_block());
    f.block.offset = 4096;
    assert!(f.need_block());
}

#[test]
fn load_block_copies_source_into_working() {
    let mut f = Files::new(String::from("x"));
    let bytes: Vec<u8> = (0u8..100).collect();
    f.block.size = 100;
    f.load_block(bytes.clone(), 100);
    assert_eq!(f.block.source, bytes);
    assert_eq!(f.block.buffer, bytes);
    assert_eq!(f.size, 100);
    assert_eq!(f.block.prev_size, 100);
}

#[test]
fn block_size_and_offset_setters() {
    let mut f = Files::new(String::from("x"));
    f.set_block_size(0);
    assert_eq!(f.block.size, 2048);
    f.set_block_size(4096);
    assert_eq!(f.block.size, 4096);
    f.set_block_offset(512);
    assert_eq!(f.block.offset, 512);
    assert!(f.need_block());
}
