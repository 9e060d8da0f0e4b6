use grimoire::frecency::FrecencyEntry;
use grimoire::frecency::FrecencyMap;
use grimoire::frecency::Score;
use grimoire::items::Item;
use grimoire::ranking::lex_less;
use grimoire::ranking::order;
use grimoire::ranking::outranks;
use grimoire::ranking::ranks_before;
use grimoire::ranking::score_item;

fn item(name: &str, id: &str) -> Item {
    Item {
        name: name.to_string(),
        command: id.to_string(),
        comment: String::new(),
        icon_data: None,
        icon_w: 0,
        icon_h: 0,
        terminal: false,
        desktop_id: id.to_string(),
    }
}

fn names(items: &[Item]) -> Vec<String> {
    items.iter().map(|i| i.name.clone()).collect()
}

#[test]
fn lex_less_orders_like_strings() {
    assert!(lex_less("a", "b"));
    assert!(!lex_less("b", "a"));
    assert!(!lex_less("a", "a"));
    assert!(lex_less("", "a"));
    assert!(!lex_less("a", ""));
    assert!(!lex_less("", ""));
    assert!(lex_less("ab", "abc"));
    assert!(lex_less("abc", "abd"));
    assert!(lex_less("Z", "a"));
    assert!(lex_less("z", "é"));
    let words = ["", "a", "ab", "b", "B", "é", "zz", "😀", "\u{ffff}"];
    for x in words {
        for y in words {
            assert_eq!(lex_less(x, y), x < y);
        }
    }
}

#[test]
fn outranks_puts_score_before_name() {
    let high = Score { count: 3, age: 0 };
    let low = Score { count: 1, age: 0 };
    assert!(outranks(&high, "zzz", &low, "aaa"));
    assert!(!outranks(&low, "aaa", &high, "zzz"));
    assert!(outranks(&low, "aaa", &low, "bbb"));
    assert!(!outranks(&low, "bbb", &low, "aaa"));
    assert!(!outranks(&low, "aaa", &low, "aaa"));
}

#[test]
fn outranks_takes_equal_fractions_as_equal() {
    let a = Score { count: 1, age: 0 };
    let b = Score { count: 2, age: 259200 };
    assert!(outranks(&a, "a", &b, "b"));
    assert!(!outranks(&b, "b", &a, "a"));
}

#[test]
fn score_item_is_zero_without_usage() {
    let m = FrecencyMap::new();
    let s = score_item(&item("Firefox", "firefox"), &m, 1000);
    assert_eq!((s.count, s.age), (0, 0));
}

#[test]
fn score_item_looks_up_the_identity() {
    let mut m = FrecencyMap::new();
    m.insert("firefox".to_string(), FrecencyEntry { count: 4, last: 900 });
    let s = score_item(&item("Firefox", "firefox"), &m, 1000);
    assert_eq!((s.count, s.age), (4, 100));
    let s = score_item(&item("Firefox", "other"), &m, 1000);
    assert_eq!((s.count, s.age), (0, 0));
}

#[test]
fn ranks_before_compares_names_without_case() {
    let m = FrecencyMap::new();
    assert!(ranks_before(&item("alpha", "1"), &item("Beta", "2"), &m, 0));
    assert!(!ranks_before(&item("Beta", "2"), &item("alpha", "1"), &m, 0));
    assert!(!ranks_before(&item("ALPHA", "1"), &item("alpha", "2"), &m, 0));
    assert!(!ranks_before(&item("alpha", "2"), &item("ALPHA", "1"), &m, 0));
}

#[test]
fn order_sorts_by_name_without_usage() {
    let m = FrecencyMap::new();
    let items = vec![item("Terminal", "t"), item("files", "f"), item("Firefox", "x")];
    let out = order(items, &m, 0);
    assert_eq!(names(&out), vec!["files", "Firefox", "Terminal"]);
}

#[test]
fn order_puts_recent_use_first() {
    let now: u64 = 1_700_000_000;
    let mut m = FrecencyMap::new();
    m.insert("a".to_string(), FrecencyEntry { count: 5, last: now });
    m.insert("b".to_string(), FrecencyEntry { count: 5, last: now - 7200 });
    let out = order(vec![item("B", "b"), item("A", "a")], &m, now);
    assert_eq!(names(&out), vec!["A", "B"]);
    let out = order(vec![item("A", "b"), item("B", "a")], &m, now);
    assert_eq!(names(&out), vec!["B", "A"]);
}

#[test]
fn order_puts_used_items_before_unused() {
    let mut m = FrecencyMap::new();
    m.insert("z".to_string(), FrecencyEntry { count: 1, last: 0 });
    let out = order(vec![item("Alpha", "a"), item("Zulu", "z"), item("Mike", "m")], &m, 1_000_000);
    assert_eq!(names(&out), vec!["Zulu", "Alpha", "Mike"]);
}

#[test]
fn order_is_stable_among_equal_keys() {
    let m = FrecencyMap::new();
    let mut first = item("Same", "1");
    first.command = "first".to_string();
    let mut second = item("same", "2");
    second.command = "second".to_string();
    let out = order(vec![first, item("Other", "3"), second], &m, 0);
    let commands: Vec<String> = out.iter().map(|i| i.command.clone()).collect();
    assert_eq!(commands, vec!["3", "first", "second"]);
}

#[test]
fn order_is_repeatable() {
    let now: u64 = 5_000_000;
    let mut m = FrecencyMap::new();
    m.insert("c".to_string(), FrecencyEntry { count: 2, last: now - 10 });
    m.insert("d".to_string(), FrecencyEntry { count: 9, last: now - 900_000 });
    let make = || vec![item("delta", "d"), item("Charlie", "c"), item("bravo", "b"), item("Alpha", "a")];
    let one = names(&order(make(), &m, now));
    let two = names(&order(make(), &m, now));
    assert_eq!(one, two);
    assert_eq!(one, vec!["delta", "Charlie", "Alpha", "bravo"]);
}

#[test]
fn order_of_nothing_is_nothing() {
    let m = FrecencyMap::new();
    assert!(order(Vec::new(), &m, 0).is_empty());
}
