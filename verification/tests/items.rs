use grimoire::items::filter;
use grimoire::items::Item;

fn item(name: &str, comment: &str) -> Item {
    Item {
        name: name.to_string(),
        command: name.to_lowercase(),
        comment: comment.to_string(),
        icon_data: None,
        icon_w: 0,
        icon_h: 0,
        terminal: false,
        desktop_id: name.to_lowercase(),
    }
}

#[test]
fn filter_keeps_matches_in_order() {
    let items = vec![item("Firefox", ""), item("Files", ""), item("Terminal", "")];
    assert_eq!(filter(&items, "fi", false), vec![0, 1]);
}

#[test]
fn filter_with_empty_query_keeps_everything_once() {
    let items = vec![item("Firefox", ""), item("Files", ""), item("Terminal", "")];
    assert_eq!(filter(&items, "", false), vec![0, 1, 2]);
    assert_eq!(filter(&items, "", true), vec![0, 1, 2]);
}

#[test]
fn filter_of_no_items_is_empty() {
    let items: Vec<Item> = Vec::new();
    assert_eq!(filter(&items, "", false), Vec::<usize>::new());
    assert_eq!(filter(&items, "x", false), Vec::<usize>::new());
}

#[test]
fn filter_searches_comments_only_when_asked() {
    let items = vec![
        item("Firefox", "Web browser"),
        item("Files", "Browse the file system"),
        item("Terminal", "Command line"),
    ];
    assert_eq!(filter(&items, "web", false), Vec::<usize>::new());
    assert_eq!(filter(&items, "web", true), vec![0]);
    assert_eq!(filter(&items, "brow", true), vec![0, 1]);
    assert_eq!(filter(&items, "term", true), vec![2]);
}

#[test]
fn filter_result_indices_rise() {
    let items = vec![
        item("zeta", ""),
        item("alpha", ""),
        item("beta", ""),
        item("gamma", ""),
        item("delta", ""),
    ];
    let view = filter(&items, "a", false);
    assert_eq!(view, vec![0, 1, 2, 3, 4]);
    let view = filter(&items, "et", false);
    assert_eq!(view, vec![0, 2, 4]);
    for pair in view.windows(2) {
        assert!(pair[0] < pair[1]);
    }
}
