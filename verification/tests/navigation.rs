use hexcore::ElementDisplay;
use hexcore::ElementMode;
use hexcore::Files;
use hexcore::HHits;
use hexcore::Hits;
use hexcore::Tabs;

#[test]
fn tabs_cycle_both_ways() {
    let mut tabs = Tabs::default();
    tabs.next();
    tabs.previous();
    assert_eq!(tabs.index, 0);
    tabs.add(String::from("a"));
    tabs.add(String::from("b"));
    tabs.add(String::from("c"));
    assert_eq!(tabs.index, 0);
    tabs.next();
    assert_eq!(tabs.index, 1);
    tabs.next();
    tabs.next();
    assert_eq!(tabs.index, 0);
    tabs.previous();
    assert_eq!(tabs.index, 2);
    assert_eq!(tabs.current().title, "c");
}

#[test]
fn files_cycle_both_ways() {
    let mut files = Files::default();
    let mut tabs = Tabs::default();
    files.next();
    files.previous();
    assert_eq!(files.index, 0);
    files.add(String::from("one"), &mut tabs);
    files.add(String::from("two"), &mut tabs);
    assert_eq!(files.files.len(), 2);
    assert_eq!(tabs.tabs.len(), 2);
    assert_eq!(tabs.tabs[0].title, "tab0");
    assert_eq!(tabs.tabs[1].title, "tab1");
    files.next();
    assert_eq!(files.index, 1);
    files.next();
    assert_eq!(files.index, 0);
    files.previous();
    assert_eq!(files.index, 1);
    assert_eq!(*files.current_path(&mut tabs), "one");
}

#[test]
fn cursor_pos_snaps_to_the_element_grid() {
    let mut tabs = Tabs::default();
    tabs.add(String::from("t"));
    tabs.tabs[0].cursor_row = 2;
    tabs.tabs[0].cursor_column = 5;
    assert_eq!(tabs.cursor_pos(), 37);
    tabs.tabs[0].element_display = ElementDisplay::DWord;
    assert_eq!(tabs.cursor_pos(), 36);
}

#[test]
fn cursor_moves_by_whole_elements() {
    let mut tabs = Tabs::default();
    tabs.add(String::from("t"));
    tabs.tabs[0].element_display = ElementDisplay::Word;
    tabs.tabs[0].cursor_column = 5;
    tabs.cursor_right();
    assert_eq!(tabs.tabs[0].cursor_column, 6);
    tabs.cursor_left();
    tabs.cursor_left();
    assert_eq!(tabs.tabs[0].cursor_column, 2);
    tabs.tabs[0].cursor_column = 0;
    tabs.cursor_left();
    assert_eq!(tabs.tabs[0].cursor_column, 0);
    tabs.tabs[0].cursor_column = 14;
    tabs.cursor_right();
    assert_eq!(tabs.tabs[0].cursor_column, 14);
}

#[test]
fn element_mode_switches_by_name() {
    let mut tabs = Tabs::default();
    tabs.add(String::from("t"));
    tabs.element_mode(String::from("dec"));
    assert_eq!(tabs.current().element_mode, ElementMode::Dec);
    tabs.element_mode(String::from("bin"));
    assert_eq!(tabs.current().element_mode, ElementMode::Bin);
    tabs.element_mode(String::from("nonsense"));
    assert_eq!(tabs.current().element_mode, ElementMode::Bin);
    tabs.element_mode(String::from("hex"));
    assert_eq!(tabs.current().element_mode, ElementMode::Hex);
}

#[test]
fn insert_index_wraps_at_the_element_width() {
    let mut tabs = Tabs::default();
    tabs.add(String::from("t"));
    // byte element in hex: two digit slots
    tabs.insert_index_next();
    assert_eq!(tabs.tabs[0].insert_index, 1);
    tabs.insert_index_next();
    assert_eq!(tabs.tabs[0].insert_index, 0);
    assert_eq!(Tabs::element_input_size(&mut tabs.tabs[0]), 2);
    tabs.tabs[0].element_display = ElementDisplay::QWord;
    assert_eq!(Tabs::element_input_size(&mut tabs.tabs[0]), 16);
}

#[test]
fn hit_navigation_wraps_within_a_group() {
    let mut h = HHits::default();
    let mut g = Hits::new(String::from("p"));
    g.hits = vec![10, 20, 30];
    h.add(g);
    assert_eq!(h.select_next_hit(), Some(20));
    assert_eq!(h.select_next_hit(), Some(30));
    assert_eq!(h.select_next_hit(), Some(10));
    assert_eq!(h.select_prev_hit(), Some(30));
    assert_eq!(h.select_prev_hit(), Some(20));
}

#[test]
fn hit_navigation_on_an_empty_group_is_a_no_op() {
    let mut h = HHits::default();
    h.add(Hits::new(String::from("p")));
    assert_eq!(h.select_next_hit(), None);
    assert_eq!(h.select_prev_hit(), None);
    assert_eq!(h.hits[0].selected, 0);
}

#[test]
fn group_navigation_wraps_and_reports_the_selected_hit() {
    let mut h = HHits::default();
    let mut g1 = Hits::new(String::from("a"));
    g1.hits = vec![1, 2];
    let mut g2 = Hits::new(String::from("b"));
    g2.hits = vec![7];
    h.add(g1);
    h.add(g2);
    assert_eq!(h.select_next_group(), Some(7));
    assert_eq!(h.selected, 1);
    assert_eq!(h.select_next_group(), Some(1));
    assert_eq!(h.select_prev_group(), Some(7));
    assert_eq!(h.select_prev_group(), Some(1));
}

#[test]
fn group_navigation_with_no_groups_is_a_no_op() {
    let mut h = HHits::default();
    assert_eq!(h.select_next_group(), None);
    assert_eq!(h.select_prev_group(), None);
    assert_eq!(h.selected, 0);
}

#[test]
fn hits_is_empty_reports_contents() {
    let mut g = Hits::new(String::from("p"));
    assert!(g.is_empty());
    g.hits.push(4);
    assert!(!g.is_empty());
}

#[test]
fn opened_tabs_count_up_in_decimal() {
    let mut files = Files::default();
    let mut tabs = Tabs::default();
    for i in 0..12 {
        files.add(format!("f{}", i), &mut tabs);
    }
    assert_eq!(tabs.tabs[9].title, "tab9");
    assert_eq!(tabs.tabs[10].title, "tab10");
    assert_eq!(tabs.tabs[11].title, "tab11");
}
