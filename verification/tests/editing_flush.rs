use hexcore::Files;
use hexcore::Tabs;

/// A 4096-byte disk image with recognisable contents.
fn image() -> Vec<u8> {
    (0..4096).map(|i| (i % 251) as u8).collect()
}

/// One open file showing the whole image, and one tab to edit through.
fn open(disk: &Vec<u8>) -> (Files, Tabs) {
    let mut files = Files::default();
    let mut tabs = Tabs::default();
    files.add(String::from("image"), &mut tabs);
    files.current(0).block.size = disk.len() as u64;
    let window = hexcore::read_window(disk, 0, disk.len());
    files.current(0).load_block(window, disk.len() as u64);
    (files, tabs)
}

/// Moves the tab's cursor to the window-relative byte position `pos`
/// (byte element, 16 bytes per row).
fn seek(tabs: &mut Tabs, pos: usize) {
    let tab = &mut tabs.tabs[0];
    tab.cursor_row = (pos / 16) as u16;
    tab.cursor_column = (pos % 16) as u16;
    tab.insert_index = 0;
}

#[test]
fn two_hex_keystrokes_commit_one_byte() {
    let disk = image();
    let (mut files, mut tabs) = open(&disk);
    seek(&mut tabs, 100);
    let fi = files.current(0);
    assert!(!fi.edit(&mut tabs.tabs[0], b'4'));
    assert!(fi.edit(&mut tabs.tabs[0], b'1'));
    assert_eq!(fi.block.buffer[100], 0x41);
    assert_eq!(fi.patch.lookup(100), Some(&vec![0x41]));
    // the pre-edit and post-edit snapshots sit on the undo stack
    let post = fi.undo.pop().unwrap();
    assert_eq!(post.offset, 100);
    assert_eq!(post.data, vec![0x41]);
    let pre = fi.undo.pop().unwrap();
    assert_eq!(pre.offset, 100);
    assert_eq!(pre.data, vec![100 % 251]);
}

#[test]
fn skip_marker_leaves_the_slot() {
    let disk = image();
    let (mut files, mut tabs) = open(&disk);
    seek(&mut tabs, 0);
    let fi = files.current(0);
    assert!(!fi.edit(&mut tabs.tabs[0], b'4'));
    // '.' leaves the second slot unfilled, so nothing decodes yet
    assert!(!fi.edit(&mut tabs.tabs[0], b'.'));
    assert_eq!(fi.patch.lookup(0), None);
    // the digit cursor still advanced and wrapped
    assert_eq!(tabs.tabs[0].insert_index, 0);
}

#[test]
fn undo_then_redo_restores_the_edit() {
    let disk = image();
    let (mut files, mut tabs) = open(&disk);
    seek(&mut tabs, 0);
    let fi = files.current(0);
    fi.edit(&mut tabs.tabs[0], b'4');
    fi.edit(&mut tabs.tabs[0], b'1');
    assert_eq!(fi.patch.lookup(0), Some(&vec![0x41]));
    fi.do_undo();
    // the pre-edit bytes are back in the overlay, the pair moved to redo
    assert_eq!(fi.patch.lookup(0), Some(&vec![0]));
    assert_eq!(fi.undo.pop(), None);
    fi.do_redo();
    assert_eq!(fi.patch.lookup(0), Some(&vec![0x41]));
    // and the undo stack holds the pair again
    let post = fi.undo.pop().unwrap();
    assert_eq!(post.data, vec![0x41]);
    let pre = fi.undo.pop().unwrap();
    assert_eq!(pre.data, vec![0]);
}

#[test]
fn undo_with_empty_log_changes_nothing() {
    let disk = image();
    let (mut files, mut tabs) = open(&disk);
    seek(&mut tabs, 0);
    let fi = files.current(0);
    let before_buffer = fi.block.buffer.clone();
    fi.do_undo();
    assert_eq!(fi.block.buffer, before_buffer);
    assert_eq!(fi.patch.len(), 0);
    assert_eq!(fi.undo.pop(), None);
    assert_eq!(fi.redo.pop(), None);
}

#[test]
fn redo_with_empty_log_changes_nothing() {
    let disk = image();
    let (mut files, mut tabs) = open(&disk);
    seek(&mut tabs, 0);
    let fi = files.current(0);
    fi.do_redo();
    assert_eq!(fi.patch.len(), 0);
    assert_eq!(fi.undo.pop(), None);
}

#[test]
fn flush_writes_the_edit_and_clears_the_overlay() {
    let mut disk = image();
    let (mut files, mut tabs) = open(&disk);
    // write bytes 0x41 then 0x42 at offsets 100 and 101
    seek(&mut tabs, 100);
    files.current(0).edit(&mut tabs.tabs[0], b'4');
    files.current(0).edit(&mut tabs.tabs[0], b'1');
    seek(&mut tabs, 101);
    files.current(0).edit(&mut tabs.tabs[0], b'4');
    files.current(0).edit(&mut tabs.tabs[0], b'2');
    let before = disk.clone();
    files.write(0, &mut disk);
    assert_eq!(disk.len(), 4096);
    assert_eq!(disk[100], 0x41);
    assert_eq!(disk[101], 0x42);
    for i in 0..4096 {
        if i != 100 && i != 101 {
            assert_eq!(disk[i], before[i]);
        }
    }
    // a subsequent overlay query returns empty
    assert_eq!(files.current(0).patch.len(), 0);
    // round trip: a fresh window over the flushed image shows the edit
    let reread = hexcore::read_window(&disk, 96, 16);
    assert_eq!(reread[4], 0x41);
    assert_eq!(reread[5], 0x42);
}

#[test]
fn flush_covers_patches_in_distinct_regions() {
    let mut disk = image();
    let (mut files, _tabs) = open(&disk);
    files.current(0).patch.set(10, vec![0xAA, 0xBB]);
    files.current(0).patch.set(3000, vec![0xCC]);
    files.write(0, &mut disk);
    assert_eq!(disk[10], 0xAA);
    assert_eq!(disk[11], 0xBB);
    assert_eq!(disk[3000], 0xCC);
    assert_eq!(disk[12], 12 % 251);
}

#[test]
fn flush_drops_patches_past_the_file_length() {
    let mut disk = image();
    let (mut files, _tabs) = open(&disk);
    files.current(0).size = 100;
    files.current(0).patch.set(200, vec![0xAA]);
    let before = disk.clone();
    files.write(0, &mut disk);
    assert_eq!(disk, before);
    assert_eq!(files.current(0).patch.len(), 0);
}

#[test]
fn flush_never_extends_the_file() {
    let mut disk = image();
    let (mut files, _tabs) = open(&disk);
    files.current(0).patch.set(4095, vec![0xAA, 0xBB]);
    files.write(0, &mut disk);
    assert_eq!(disk.len(), 4096);
    assert_eq!(disk[4095], 0xAA);
}
