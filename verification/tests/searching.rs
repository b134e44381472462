use hexcore::search_chunk;
use hexcore::search_scan;
use hexcore::Files;
use hexcore::Tabs;

#[test]
fn one_hit_per_chunk() {
    // a 4096-byte file with the pattern at offsets 10, 2050 and 2051:
    // chunk 0 records 10; chunk 1 records its first hit 2050 only, so the
    // match at 2051 is not reported
    let mut data = vec![0u8; 4096];
    data[10] = b'A';
    data[11] = b'A';
    data[2050] = b'A';
    data[2051] = b'A';
    data[2052] = b'A';
    let hits = search_scan(&data, &vec![b'A', b'A'], String::from("AA"));
    assert_eq!(hits.hits, vec![10, 2050]);
    assert_eq!(hits.selected, 0);
    assert_eq!(hits.flag, "AA");
}

#[test]
fn match_straddling_a_chunk_boundary_is_found() {
    let mut data = vec![0u8; 4096];
    data[2047] = b'X';
    data[2048] = b'Y';
    let hits = search_scan(&data, &vec![b'X', b'Y'], String::from("XY"));
    assert_eq!(hits.hits, vec![2047]);
}

#[test]
fn no_match_yields_an_empty_group() {
    let data = vec![0u8; 4096];
    let hits = search_scan(&data, &vec![b'Z'], String::from("Z"));
    assert_eq!(hits.hits.len(), 0);
    assert_eq!(hits.selected, 0);
}

#[test]
fn short_file_single_chunk() {
    let data = b"The quick brown fox jumped over the lazy dog.".to_vec();
    let hits = search_scan(&data, &b"dog".to_vec(), String::from("dog"));
    assert_eq!(hits.hits, vec![41]);
}

#[test]
fn search_reads_padding_past_end_of_file() {
    // the extended read pads with 0xFF, so a pattern of fill bytes matches
    // just past the file's last real byte
    let mut data = vec![0u8; 10];
    data[9] = 0xFF;
    let hits = search_scan(&data, &vec![0xFF, 0xFF], String::from("ff"));
    assert_eq!(hits.hits, vec![9]);
}

#[test]
fn chunk_step_reports_absolute_offsets() {
    let mut ext = vec![0u8; 100];
    ext[40] = b'Q';
    assert_eq!(search_chunk(&ext, &vec![b'Q'], 2048), Some(2088));
    assert_eq!(search_chunk(&ext, &vec![b'R'], 2048), None);
}

#[test]
fn handle_search_appends_a_group() {
    let mut files = Files::default();
    let mut tabs = Tabs::default();
    files.add(String::from("image"), &mut tabs);
    let mut data = vec![0u8; 4096];
    data[5] = b'K';
    data[3000] = b'K';
    let found = files
        .current(0)
        .handle_search(&data, &vec![b'K'], String::from("K"));
    assert_eq!(found, 2);
    let fi = files.current(0);
    assert_eq!(fi.hhits.hits.len(), 1);
    assert_eq!(fi.hhits.hits[0].hits, vec![5, 3000]);
    assert_eq!(fi.hhits.hits[0].flag, "K");
    let found2 = files
        .current(0)
        .handle_search(&data, &vec![b'K'], String::from("K"));
    assert_eq!(found2, 2);
    assert_eq!(files.current(0).hhits.hits.len(), 2);
}
