use grimoire::frecency::FrecencyEntry;
use grimoire::frecency::FrecencyMap;
use grimoire::items::Item;
use grimoire::launcher::is_printable;
use grimoire::launcher::Action;
use grimoire::launcher::Event;
use grimoire::launcher::Key;
use grimoire::launcher::Launcher;
use grimoire::launcher::Mode;
use grimoire::launcher::PointerEvent;
use grimoire::launcher::PointerKind;
use grimoire::launcher::Settings;
use grimoire::launcher::BTN_LEFT;

fn item(name: &str) -> Item {
    Item {
        name: name.to_string(),
        command: format!("run-{}", name.to_lowercase()),
        comment: String::new(),
        icon_data: None,
        icon_w: 0,
        icon_h: 0,
        terminal: false,
        desktop_id: name.to_lowercase(),
    }
}

fn settings(mode: Mode, cols: usize) -> Settings {
    Settings {
        mode,
        cols,
        icon_size: 32,
        show_comments: true,
        search_comments: false,
        terminal_cmd: "ghostty -e".to_string(),
    }
}

fn launcher(names: &[&str], mode: Mode, cols: usize, width: u32, height: u32) -> Launcher {
    let items = names.iter().map(|n| item(n)).collect();
    Launcher::new(settings(mode, cols), items, FrecencyMap::new(), width, height)
}

fn seven() -> Launcher {
    launcher(&["A", "B", "C", "D", "E", "F", "G"], Mode::Drun, 3, 600, 400)
}

fn at(kind: PointerKind, x: i32, y: i32) -> PointerEvent {
    PointerEvent { kind, x, y }
}

fn is_nothing(a: &Action) -> bool {
    matches!(a, Action::Nothing)
}

#[test]
fn new_launcher_shows_everything() {
    let l = seven();
    assert_eq!(l.filtered, vec![0, 1, 2, 3, 4, 5, 6]);
    assert_eq!(l.selected, 0);
    assert_eq!(l.scroll_offset, 0);
    assert_eq!(l.hover_index, None);
    assert_eq!(l.input, "");
    assert!(!l.exit);
    assert_eq!(l.effective_cols(), 3);
    assert_eq!(l.row_height(), 40);
    assert_eq!(l.visible_rows(), 8);
    assert_eq!(l.col_width(), 200);
    assert_eq!(l.grid_x_offset(), 0);
}

#[test]
fn down_moves_by_a_row_and_stops_at_the_end() {
    let mut l = seven();
    for want in [3, 6, 6, 6] {
        let out = l.handle_key(Key::Down, None, 0);
        assert_eq!(l.selected, want);
        assert!(is_nothing(&out.action));
    }
}

#[test]
fn down_reports_a_redraw_only_when_it_moved() {
    let mut l = seven();
    assert!(l.handle_key(Key::Down, None, 0).redraw);
    assert!(l.handle_key(Key::Down, None, 0).redraw);
    assert!(!l.handle_key(Key::Down, None, 0).redraw);
}

#[test]
fn up_moves_by_a_row_and_stops_at_the_top() {
    let mut l = seven();
    l.handle_key(Key::Down, None, 0);
    l.handle_key(Key::Right, None, 0);
    assert_eq!(l.selected, 4);
    assert!(l.handle_key(Key::Up, None, 0).redraw);
    assert_eq!(l.selected, 1);
    assert!(!l.handle_key(Key::Up, None, 0).redraw);
    assert_eq!(l.selected, 1);
}

#[test]
fn left_and_right_walk_the_flat_sequence() {
    let mut l = seven();
    assert!(!l.handle_key(Key::Left, None, 0).redraw);
    assert_eq!(l.selected, 0);
    for want in [1, 2, 3, 4, 5, 6] {
        assert!(l.handle_key(Key::Right, None, 0).redraw);
        assert_eq!(l.selected, want);
    }
    assert!(!l.handle_key(Key::Right, None, 0).redraw);
    assert_eq!(l.selected, 6);
    assert!(l.handle_key(Key::Left, None, 0).redraw);
    assert_eq!(l.selected, 5);
}

#[test]
fn typing_filters_and_resets_the_selection() {
    let mut l = launcher(&["Firefox", "Files", "Terminal"], Mode::Drun, 1, 600, 400);
    l.handle_key(Key::Down, None, 0);
    assert_eq!(l.selected, 1);
    let out = l.handle_key(Key::Other, Some("f"), 0);
    assert!(out.redraw);
    assert_eq!(l.input, "f");
    assert_eq!(l.filtered, vec![0, 1]);
    assert_eq!(l.selected, 0);
    assert_eq!(l.scroll_offset, 0);
    l.handle_key(Key::Other, Some("i"), 0);
    assert_eq!(l.input, "fi");
    assert_eq!(l.filtered, vec![0, 1]);
    l.handle_key(Key::Other, Some("l"), 0);
    assert_eq!(l.filtered, vec![1]);
    l.handle_key(Key::Other, Some("q"), 0);
    assert_eq!(l.filtered, Vec::<usize>::new());
    assert_eq!(l.selected, 0);
    assert_eq!(l.effective_cols(), 1);
}

#[test]
fn backspace_pops_and_does_nothing_on_an_empty_query() {
    let mut l = launcher(&["Firefox", "Files", "Terminal"], Mode::Drun, 1, 600, 400);
    assert!(!l.handle_key(Key::BackSpace, None, 0).redraw);
    assert!(!l.handle_key(Key::BackSpace, Some("x"), 0).redraw);
    assert_eq!(l.input, "");
    l.handle_key(Key::Other, Some("te"), 0);
    assert_eq!(l.filtered, vec![2]);
    assert!(l.handle_key(Key::BackSpace, None, 0).redraw);
    assert_eq!(l.input, "t");
    assert_eq!(l.filtered, vec![2]);
    assert!(l.handle_key(Key::BackSpace, None, 0).redraw);
    assert_eq!(l.input, "");
    assert_eq!(l.filtered, vec![0, 1, 2]);
}

#[test]
fn control_characters_are_not_typed() {
    let mut l = seven();
    assert!(!l.handle_key(Key::Other, Some("\u{7}"), 0).redraw);
    assert!(!l.handle_key(Key::Other, Some("a\tb"), 0).redraw);
    assert!(!l.handle_key(Key::Other, Some(""), 0).redraw);
    assert!(!l.handle_key(Key::Other, None, 0).redraw);
    assert_eq!(l.input, "");
}

#[test]
fn printable_text() {
    assert!(is_printable("a"));
    assert!(is_printable("Grüße 😀"));
    assert!(is_printable(" "));
    assert!(!is_printable(""));
    assert!(!is_printable("\n"));
    assert!(!is_printable("a\u{1b}"));
    assert!(!is_printable("\u{7f}"));
    assert!(!is_printable("\u{9f}x"));
}

#[test]
fn an_arrow_that_cannot_move_types_its_text() {
    let mut l = seven();
    assert!(l.handle_key(Key::Left, Some("a"), 0).redraw);
    assert_eq!(l.input, "a");
    assert_eq!(l.filtered, vec![0]);
}

#[test]
fn escape_ends_without_an_action() {
    let mut l = seven();
    let out = l.handle_key(Key::Escape, Some("x"), 0);
    assert!(l.exit);
    assert!(!out.redraw);
    assert!(is_nothing(&out.action));
    assert_eq!(l.input, "");
}

#[test]
fn return_prints_the_line_in_dmenu_mode() {
    let mut l = launcher(&["one", "two"], Mode::Dmenu, 1, 600, 400);
    l.handle_key(Key::Down, None, 0);
    let out = l.handle_key(Key::Return, None, 77);
    assert!(l.exit);
    assert!(!out.redraw);
    match out.action {
        Action::Print(line) => assert_eq!(line, "run-two"),
        _ => panic!("a line was to be printed"),
    }
    assert!(l.frecency.records.is_empty());
}

#[test]
fn return_launches_and_counts_in_drun_mode() {
    let mut l = seven();
    l.handle_key(Key::Right, None, 0);
    let out = l.handle_key(Key::Return, None, 1234);
    assert!(l.exit);
    match out.action {
        Action::Launch(line) => assert_eq!(line, "run-b"),
        _ => panic!("a command was to be launched"),
    }
    let e = l.frecency.get("b").unwrap();
    assert_eq!((e.count, e.last), (1, 1234));
    assert!(l.frecency.get("a").is_none());
}

#[test]
fn launching_again_adds_to_the_count() {
    let items = vec![item("A")];
    let mut m = FrecencyMap::new();
    m.insert("a".to_string(), FrecencyEntry { count: 4, last: 10 });
    let mut l = Launcher::new(settings(Mode::Drun, 1), items, m, 600, 400);
    l.select_item(99);
    let e = l.frecency.get("a").unwrap();
    assert_eq!((e.count, e.last), (5, 99));
}

#[test]
fn a_terminal_item_runs_inside_the_terminal() {
    let mut it = item("Top");
    it.terminal = true;
    it.command = "htop".to_string();
    let mut l = Launcher::new(settings(Mode::Drun, 1), vec![it], FrecencyMap::new(), 600, 400);
    match l.select_item(0) {
        Action::Launch(line) => assert_eq!(line, "ghostty -e htop"),
        _ => panic!("a command was to be launched"),
    }
}

#[test]
fn return_without_items_does_nothing() {
    let mut l = launcher(&[], Mode::Drun, 3, 600, 400);
    let out = l.handle_key(Key::Return, None, 5);
    assert!(!l.exit);
    assert!(!out.redraw);
    assert!(is_nothing(&out.action));
    let mut l = launcher(&["abc"], Mode::Dmenu, 3, 600, 400);
    l.handle_key(Key::Other, Some("z"), 0);
    let out = l.handle_key(Key::Return, None, 5);
    assert!(!l.exit);
    assert!(is_nothing(&out.action));
}

#[test]
fn the_window_follows_the_selection() {
    let mut l = launcher(&["A", "B", "C", "D", "E", "F", "G"], Mode::Drun, 3, 600, 130);
    assert_eq!(l.visible_rows(), 2);
    l.handle_key(Key::Down, None, 0);
    assert_eq!((l.selected, l.scroll_offset), (3, 0));
    l.handle_key(Key::Down, None, 0);
    assert_eq!((l.selected, l.scroll_offset), (6, 1));
    l.handle_key(Key::Up, None, 0);
    assert_eq!((l.selected, l.scroll_offset), (3, 1));
    l.handle_key(Key::Up, None, 0);
    assert_eq!((l.selected, l.scroll_offset), (0, 0));
}

#[test]
fn ensure_visible_twice_is_ensure_visible_once() {
    let mut l = launcher(&["A", "B", "C", "D", "E", "F", "G"], Mode::Drun, 1, 600, 130);
    for (selected, scroll) in [(0, 0), (6, 0), (0, 5), (3, 3), (3, 2), (3, 1), (6, 6), (2, 6)] {
        l.selected = selected;
        l.scroll_offset = scroll;
        l.ensure_visible();
        let once = l.scroll_offset;
        assert!(once <= selected && selected < once + 2);
        l.ensure_visible();
        assert_eq!(l.scroll_offset, once);
    }
    l.selected = 6;
    l.scroll_offset = 0;
    l.ensure_visible();
    assert_eq!(l.scroll_offset, 5);
    l.selected = 2;
    l.ensure_visible();
    assert_eq!(l.scroll_offset, 2);
}

#[test]
fn pointer_motion_sets_the_hover() {
    let mut l = seven();
    let out = l.pointer_event(at(PointerKind::Motion, 250, 60), 0);
    assert!(out.redraw);
    assert_eq!(l.hover_index, Some(1));
    let out = l.pointer_event(at(PointerKind::Motion, 260, 70), 0);
    assert!(!out.redraw);
    let out = l.pointer_event(at(PointerKind::Motion, 260, 10), 0);
    assert!(out.redraw);
    assert_eq!(l.hover_index, None);
    let out = l.pointer_event(at(PointerKind::Motion, 10, 10), 0);
    assert!(!out.redraw);
    assert_eq!(l.selected, 0);
}

#[test]
fn a_click_on_an_item_commits_it() {
    let mut l = seven();
    let out = l.pointer_event(at(PointerKind::Press { button: BTN_LEFT }, 450, 100), 500);
    assert_eq!(l.selected, 5);
    assert!(l.exit);
    assert!(!out.redraw);
    match out.action {
        Action::Launch(line) => assert_eq!(line, "run-f"),
        _ => panic!("a command was to be launched"),
    }
    assert_eq!(l.frecency.get("f").unwrap().last, 500);
}

#[test]
fn a_click_beside_the_items_does_nothing() {
    let mut l = seven();
    for (x, y) in [(10, 10), (250, 135), (10, 300), (-4, 60)] {
        let out = l.pointer_event(at(PointerKind::Press { button: BTN_LEFT }, x, y), 0);
        assert!(!out.redraw);
        assert!(is_nothing(&out.action));
    }
    let out = l.pointer_event(at(PointerKind::Press { button: 0x111 }, 10, 60), 0);
    assert!(is_nothing(&out.action));
    let out = l.pointer_event(at(PointerKind::Other, 10, 60), 0);
    assert!(is_nothing(&out.action));
    assert!(!l.exit);
    assert_eq!(l.selected, 0);
}

#[test]
fn the_wheel_moves_the_window_by_a_row() {
    let names: Vec<String> = (0..20).map(|i| format!("item{i:02}")).collect();
    let refs: Vec<&str> = names.iter().map(|s| s.as_str()).collect();
    let mut l = launcher(&refs, Mode::Drun, 1, 600, 170);
    assert_eq!(l.visible_rows(), 3);
    l.handle_key(Key::Down, None, 0);
    l.handle_key(Key::Down, None, 0);
    assert_eq!((l.selected, l.scroll_offset), (2, 0));
    let out = l.pointer_event(at(PointerKind::Axis { vertical: 1 }, 0, 0), 0);
    assert!(out.redraw);
    assert_eq!((l.selected, l.scroll_offset), (2, 1));
    l.pointer_event(at(PointerKind::Axis { vertical: 5 }, 0, 0), 0);
    assert_eq!((l.selected, l.scroll_offset), (2, 2));
    l.pointer_event(at(PointerKind::Axis { vertical: -1 }, 0, 0), 0);
    assert_eq!((l.selected, l.scroll_offset), (2, 1));
    let out = l.pointer_event(at(PointerKind::Axis { vertical: 0 }, 0, 0), 0);
    assert!(!out.redraw);
    assert_eq!(l.scroll_offset, 1);
}

#[test]
fn the_window_keeps_the_selection_when_the_wheel_turns() {
    let names: Vec<String> = (0..20).map(|i| format!("item{i:02}")).collect();
    let refs: Vec<&str> = names.iter().map(|s| s.as_str()).collect();
    let mut l = launcher(&refs, Mode::Drun, 1, 600, 170);
    let out = l.pointer_event(at(PointerKind::Axis { vertical: 1 }, 0, 0), 0);
    assert!(out.redraw);
    assert_eq!((l.selected, l.scroll_offset), (0, 0));
    let out = l.pointer_event(at(PointerKind::Axis { vertical: -1 }, 0, 0), 0);
    assert!(!out.redraw);
    l.selected = 19;
    l.ensure_visible();
    assert_eq!(l.scroll_offset, 17);
    let out = l.pointer_event(at(PointerKind::Axis { vertical: 1 }, 0, 0), 0);
    assert!(!out.redraw);
    assert_eq!(l.scroll_offset, 17);
}

#[test]
fn the_wheel_stops_where_the_last_item_is_in_view() {
    let mut l = launcher(&["A", "B", "C", "D", "E", "F", "G", "H"], Mode::Drun, 3, 600, 130);
    assert_eq!(l.visible_rows(), 2);
    l.selected = 7;
    l.scroll_offset = 2;
    let out = l.pointer_event(at(PointerKind::Axis { vertical: 1 }, 0, 0), 0);
    assert!(!out.redraw);
    l.scroll_offset = 1;
    l.selected = 6;
    l.pointer_event(at(PointerKind::Axis { vertical: 1 }, 0, 0), 0);
    assert_eq!(l.scroll_offset, 2);
    l.pointer_event(at(PointerKind::Axis { vertical: -1 }, 0, 0), 0);
    assert_eq!(l.scroll_offset, 1);
}

#[test]
fn a_batch_of_pointer_events_is_taken_in_order() {
    let mut l = seven();
    let events = [
        at(PointerKind::Motion, 10, 60),
        at(PointerKind::Other, 0, 0),
        at(PointerKind::Motion, 10, 61),
    ];
    let out = l.pointer_frame(&events, 0);
    assert!(out.redraw);
    assert!(is_nothing(&out.action));
    assert_eq!(l.hover_index, Some(0));
    let out = l.pointer_frame(&events[2..], 0);
    assert!(!out.redraw);
    let out = l.pointer_frame(&[], 0);
    assert!(!out.redraw);
    assert!(is_nothing(&out.action));
}

#[test]
fn a_click_ends_the_batch() {
    let mut l = seven();
    let events = [
        at(PointerKind::Motion, 10, 60),
        at(PointerKind::Press { button: BTN_LEFT }, 210, 60),
        at(PointerKind::Motion, 410, 60),
    ];
    let out = l.pointer_frame(&events, 42);
    assert!(!out.redraw);
    match out.action {
        Action::Launch(line) => assert_eq!(line, "run-b"),
        _ => panic!("a command was to be launched"),
    }
    assert!(l.exit);
    assert_eq!(l.hover_index, Some(0));
    assert_eq!(l.selected, 1);
}

#[test]
fn a_new_size_keeps_the_selection_in_view() {
    let mut l = launcher(&["A", "B", "C", "D", "E", "F", "G"], Mode::Drun, 1, 600, 400);
    for _ in 0..6 {
        l.handle_key(Key::Down, None, 0);
    }
    assert_eq!((l.selected, l.scroll_offset), (6, 0));
    l.configure(300, 130);
    assert_eq!((l.width, l.height), (300, 130));
    assert_eq!((l.selected, l.scroll_offset), (6, 5));
    l.configure(0, 0);
    assert_eq!((l.width, l.height), (300, 130));
    l.configure(0, 500);
    assert_eq!((l.width, l.height), (300, 500));
    assert_eq!(l.scroll_offset, 5);
}

#[test]
fn closing_ends_the_launcher() {
    let mut l = seven();
    l.closed();
    assert!(l.exit);
}

#[test]
fn refilter_follows_the_query() {
    let mut l = launcher(&["Firefox", "Files", "Terminal"], Mode::Drun, 1, 600, 400);
    l.input = "term".to_string();
    l.selected = 2;
    l.scroll_offset = 1;
    l.refilter();
    assert_eq!(l.filtered, vec![2]);
    assert_eq!((l.selected, l.scroll_offset), (0, 0));
}

#[test]
fn comments_are_searched_when_configured() {
    let mut a = item("Firefox");
    a.comment = "Web browser".to_string();
    let mut s = settings(Mode::Drun, 1);
    s.search_comments = true;
    let mut l = Launcher::new(s, vec![a, item("Files")], FrecencyMap::new(), 600, 400);
    l.handle_key(Key::Other, Some("web"), 0);
    assert_eq!(l.filtered, vec![0]);
}

#[test]
fn dispatch_takes_every_event() {
    let mut l = seven();
    let out = l.dispatch(&Event::KeyPress { key: Key::Down, text: None }, 0);
    assert!(out.redraw);
    assert_eq!(l.selected, 3);
    let out = l.dispatch(&Event::PointerMove { x: 10, y: 60 }, 0);
    assert!(out.redraw);
    assert_eq!(l.hover_index, Some(0));
    let out = l.dispatch(&Event::Scroll { vertical: 1 }, 0);
    assert!(!out.redraw);
    let out = l.dispatch(&Event::Resize { width: 300, height: 90 }, 0);
    assert!(out.redraw);
    assert_eq!((l.width, l.height), (300, 90));
    assert_eq!(l.scroll_offset, 1);
    let out = l.dispatch(&Event::KeyPress { key: Key::Other, text: Some("g".to_string()) }, 0);
    assert!(out.redraw);
    assert_eq!(l.filtered, vec![6]);
    let out = l.dispatch(&Event::PointerClick { x: 10, y: 60 }, 9);
    assert!(is_nothing(&out.action));
    let out = l.dispatch(&Event::PointerClick { x: 150, y: 60 }, 9);
    match out.action {
        Action::Launch(line) => assert_eq!(line, "run-g"),
        _ => panic!("a command was to be launched"),
    }
    assert!(l.exit);
    let mut l = seven();
    let out = l.dispatch(&Event::Close, 0);
    assert!(l.exit);
    assert!(!out.redraw);
    assert!(is_nothing(&out.action));
}

#[test]
fn handlers_keep_the_state_well_formed() {
    let mut l = launcher(&["Alpha", "Beta", "Gamma", "Delta", "Epsilon"], Mode::Drun, 2, 300, 130);
    assert!(l.is_well_formed());
    let keys = [
        (Key::Down, None),
        (Key::Down, None),
        (Key::Right, None),
        (Key::Other, Some("a")),
        (Key::Down, None),
        (Key::BackSpace, None),
        (Key::Up, None),
        (Key::Left, Some("e")),
        (Key::BackSpace, None),
    ];
    for (key, text) in keys {
        l.handle_key(key, text, 0);
        assert!(l.is_well_formed());
        l.pointer_event(at(PointerKind::Axis { vertical: 1 }, 0, 0), 0);
        assert!(l.is_well_formed());
        l.pointer_event(at(PointerKind::Motion, 20, 70), 0);
        assert!(l.is_well_formed());
    }
    l.configure(100, 60);
    assert!(l.is_well_formed());
}

#[test]
fn a_state_set_by_hand_can_be_ill_formed() {
    let mut l = seven();
    l.selected = 7;
    assert!(!l.is_well_formed());
    l.selected = 6;
    l.scroll_offset = 7;
    assert!(!l.is_well_formed());
    l.scroll_offset = 0;
    assert!(l.is_well_formed());
    l.filtered = vec![0, 1, 2];
    l.selected = 0;
    assert!(!l.is_well_formed());
    let mut l = launcher(&["A", "B", "C"], Mode::Drun, 1, 600, 130);
    l.selected = 2;
    assert!(!l.is_well_formed());
    l.scroll_offset = 1;
    assert!(l.is_well_formed());
}

#[test]
fn guarded_handlers_refuse_an_ill_formed_state() {
    let mut l = seven();
    l.selected = 9;
    assert!(l.try_handle_key(Key::Left, None, 0).is_none());
    assert!(l.try_pointer_frame(&[at(PointerKind::Motion, 10, 60)], 0).is_none());
    assert!(l.try_dispatch(&Event::Close, 0).is_none());
    assert!(!l.try_configure(100, 100));
    assert_eq!((l.selected, l.scroll_offset, l.width, l.height), (9, 0, 600, 400));
    assert_eq!(l.hover_index, None);
    assert!(!l.exit);
}

#[test]
fn guarded_handlers_work_on_a_well_formed_state() {
    let mut l = seven();
    let out = l.try_handle_key(Key::Down, None, 0).unwrap();
    assert!(out.redraw);
    assert_eq!(l.selected, 3);
    let out = l.try_pointer_frame(&[at(PointerKind::Motion, 10, 60)], 0).unwrap();
    assert!(out.redraw);
    assert!(l.try_configure(300, 300));
    assert_eq!((l.width, l.height), (300, 300));
    let out = l.try_dispatch(&Event::KeyPress { key: Key::Escape, text: None }, 0).unwrap();
    assert!(!out.redraw);
    assert!(l.exit);
}
