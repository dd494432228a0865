use wat::tabs::{is_secure, tab_label, window_title, TabList};

#[test]
fn opened_tabs_get_fresh_increasing_ids() {
    let mut tabs = TabList::new();
    assert_eq!(tabs.tab_count(), 0);
    assert_eq!(tabs.active_id(), None);
    let first = tabs.open(true);
    let second = tabs.open(false);
    let third = tabs.open(true);
    assert_eq!((first, second, third), (1, 2, 3));
    assert_eq!(tabs.tab_count(), 3);
    assert_eq!(tabs.active_index(), 2);
    assert_eq!(tabs.active_id(), Some(3));
}

#[test]
fn opening_in_the_background_keeps_the_active_tab() {
    let mut tabs = TabList::new();
    tabs.open(true);
    tabs.open(false);
    assert_eq!(tabs.active_index(), 0);
    assert_eq!(tabs.active_id(), Some(1));
}

#[test]
fn selecting_a_missing_tab_changes_nothing() {
    let mut tabs = TabList::new();
    tabs.open(true);
    tabs.open(false);
    assert!(tabs.select(1));
    assert_eq!(tabs.active_id(), Some(2));
    assert!(!tabs.select(5));
    assert_eq!(tabs.active_index(), 1);
}

#[test]
fn closing_the_last_active_tab_moves_focus_back() {
    let mut tabs = TabList::new();
    tabs.open(true);
    tabs.open(true);
    tabs.open(true);
    assert_eq!(tabs.close(3), Some(2));
    assert_eq!(tabs.tab_count(), 2);
    assert_eq!(tabs.active_index(), 1);
    assert_eq!(tabs.active_id(), Some(2));
    assert_eq!(tabs.id_at(0), Some(1));
    assert_eq!(tabs.id_at(2), None);
}

#[test]
fn closing_an_earlier_tab_keeps_the_active_index() {
    let mut tabs = TabList::new();
    tabs.open(true);
    tabs.open(true);
    tabs.open(false);
    assert_eq!(tabs.close(1), Some(0));
    assert_eq!(tabs.active_index(), 1);
    assert_eq!(tabs.active_id(), Some(3));
}

#[test]
fn closing_an_unknown_id_changes_nothing() {
    let mut tabs = TabList::new();
    tabs.open(true);
    assert_eq!(tabs.close(7), None);
    assert_eq!(tabs.tab_count(), 1);
    assert_eq!(tabs.close(1), Some(0));
    assert_eq!(tabs.tab_count(), 0);
    assert_eq!(tabs.active_index(), 0);
    assert_eq!(tabs.active_id(), None);
    // Ids are never handed out twice.
    assert_eq!(tabs.open(true), 2);
}

#[test]
fn tab_labels_fall_back_from_title_to_url() {
    assert_eq!(tab_label(Some("Example"), "https://example.com/"), "Example");
    assert_eq!(tab_label(Some("   "), "https://example.com/"), "https://example.com/");
    assert_eq!(tab_label(None, "about:blank"), "about:blank");
    assert_eq!(tab_label(None, ""), "New tab");
    assert_eq!(tab_label(Some(""), ""), "New tab");
}

#[test]
fn only_https_is_secure() {
    assert!(is_secure("https://example.com/"));
    assert!(!is_secure("http://example.com/"));
    assert!(!is_secure("file:///tmp/a.html"));
    assert!(!is_secure(""));
}

#[test]
fn window_titles_name_the_browser() {
    assert_eq!(window_title(Some("Example")), "Example — What-A-Browser");
    assert_eq!(window_title(None), "What-A-Browser");
}

#[test]
fn closing_the_tab_just_opened_restores_the_strip() {
    let mut tabs = TabList::new();
    tabs.open(true);
    tabs.open(false);
    let before: Vec<Option<u64>> = (0..3).map(|i| tabs.id_at(i)).collect();
    let id = tabs.open(true);
    assert_eq!(tabs.close(id), Some(2));
    let after: Vec<Option<u64>> = (0..3).map(|i| tabs.id_at(i)).collect();
    assert_eq!(before, after);
}
