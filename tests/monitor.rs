use hegemon::event::{Event, Key, MouseButton};
use hegemon::model::{command, intervals, menu_for, Action, Application, Interval, MenuItem, Screen};
use hegemon::stream::{StreamWrapper, VALUE_HISTORY_SIZE};
use hegemon::viewport::{scroll_to, visible_range, ScrollAnchor};

fn app_with(count: usize, height: usize) -> Application<usize, f64> {
    Application::new(80, height, (0..count).collect())
}

fn key(k: Key) -> Event {
    Event::Key(k)
}

fn labels(items: &[MenuItem]) -> Vec<(String, String)> {
    items.iter().map(|m| (m.keys.clone(), m.label.clone())).collect()
}

#[test]
fn history_is_bounded_and_keeps_most_recent() {
    let mut entry: StreamWrapper<(), u32> = StreamWrapper::new(());
    for i in 0..600u32 {
        entry.record(Some(i));
        assert!(entry.values.len() <= VALUE_HISTORY_SIZE);
    }
    assert_eq!(entry.values.len(), 512);
    let kept: Vec<Option<u32>> = entry.values.iter().cloned().collect();
    let expected: Vec<Option<u32>> = (88..600u32).map(Some).collect();
    assert_eq!(kept, expected);
}

#[test]
fn history_below_capacity_keeps_everything() {
    let mut entry: StreamWrapper<(), f64> = StreamWrapper::new(());
    entry.record(Some(1.5));
    entry.record(None);
    entry.record(Some(2.5));
    let kept: Vec<Option<f64>> = entry.values.iter().cloned().collect();
    assert_eq!(kept, vec![Some(1.5), None, Some(2.5)]);
}

#[test]
fn history_at_exact_capacity_drops_nothing() {
    let mut entry: StreamWrapper<(), u32> = StreamWrapper::new(());
    for i in 0..512u32 {
        entry.record(Some(i));
    }
    assert_eq!(entry.values.len(), 512);
    assert_eq!(entry.values[0], Some(0));
    entry.record(None);
    assert_eq!(entry.values.len(), 512);
    assert_eq!(entry.values[0], Some(1));
    assert_eq!(entry.values[511], None);
}

#[test]
fn entry_height_depends_on_expansion() {
    let mut entry: StreamWrapper<(), f64> = StreamWrapper::new(());
    assert!(entry.active);
    assert!(!entry.expanded);
    assert_eq!(entry.height(), 3);
    entry.expanded = true;
    assert_eq!(entry.height(), 6);
}

#[test]
fn update_streams_records_active_entries_only() {
    let mut app = app_with(3, 40);
    app.streams[1].active = false;
    app.update_streams(vec![Some(1.0), Some(2.0), None]);
    app.update_streams(vec![Some(3.0), Some(4.0), Some(5.0)]);
    let hist = |i: usize| app.streams[i].values.iter().cloned().collect::<Vec<_>>();
    assert_eq!(hist(0), vec![Some(1.0), Some(3.0)]);
    assert!(hist(1).is_empty());
    assert_eq!(hist(2), vec![None, Some(5.0)]);
}

#[test]
fn reset_streams_clears_every_history() {
    let mut app = app_with(2, 40);
    app.update_streams(vec![Some(1.0), Some(2.0)]);
    app.reset_streams();
    assert!(app.streams.iter().all(|s| s.values.is_empty()));
    assert!(app.streams.iter().all(|s| s.active && !s.expanded));
    assert_eq!(app.streams[1].stream, 1);
}

#[test]
fn visible_range_of_five_collapsed_entries() {
    let hs = vec![3usize; 5];
    assert_eq!(visible_range(&hs, 0, ScrollAnchor::Top, 10), (0, 2));
    assert_eq!(visible_range(&hs, 4, ScrollAnchor::Bottom, 10), (2, 4));
    assert_eq!(visible_range(&hs, 3, ScrollAnchor::Top, 10), (3, 4));
}

#[test]
fn visible_range_when_nothing_fits() {
    let hs = vec![6usize, 3];
    assert_eq!(visible_range(&hs, 0, ScrollAnchor::Top, 4), (0, 0));
    assert_eq!(visible_range(&hs, 1, ScrollAnchor::Bottom, 0), (1, 1));
}

#[test]
fn selecting_below_the_view_anchors_at_bottom() {
    let hs = vec![3usize; 5];
    assert_eq!(scroll_to(&hs, 0, ScrollAnchor::Top, 10, 4), (4, ScrollAnchor::Bottom));
}

#[test]
fn selecting_above_the_view_anchors_at_top() {
    let hs = vec![3usize; 5];
    assert_eq!(scroll_to(&hs, 4, ScrollAnchor::Bottom, 10, 1), (1, ScrollAnchor::Top));
    assert_eq!(scroll_to(&hs, 4, ScrollAnchor::Bottom, 10, 2), (4, ScrollAnchor::Bottom));
}

#[test]
fn scrolling_twice_changes_nothing_more() {
    let hs = vec![3usize, 6, 3, 3, 6, 3];
    for start in 0..hs.len() {
        for anchor in [ScrollAnchor::Top, ScrollAnchor::Bottom] {
            for target in 0..hs.len() {
                let (s, a) = scroll_to(&hs, start, anchor, 10, target);
                assert_eq!(scroll_to(&hs, s, a, 10, target), (s, a));
                let (top, bottom) = visible_range(&hs, s, a, 10);
                assert!(top <= target && target <= bottom);
            }
        }
    }
}

#[test]
fn scrolling_with_no_entries_does_nothing() {
    let hs: Vec<usize> = Vec::new();
    assert_eq!(scroll_to(&hs, 0, ScrollAnchor::Top, 10, 0), (0, ScrollAnchor::Top));
}

#[test]
fn moving_down_scrolls_the_view() {
    let mut app = app_with(5, 12);
    assert!(app.handle(&key(Key::Down)));
    assert!(app.handle(&key(Key::Down)));
    assert_eq!((app.selection_index, app.scroll_index, app.scroll_anchor), (2, 0, ScrollAnchor::Top));
    assert!(app.handle(&key(Key::Down)));
    assert_eq!((app.selection_index, app.scroll_index, app.scroll_anchor), (3, 3, ScrollAnchor::Bottom));
    assert!(app.handle(&key(Key::Down)));
    assert_eq!((app.selection_index, app.scroll_index, app.scroll_anchor), (4, 4, ScrollAnchor::Bottom));
    assert!(!app.handle(&key(Key::Down)));
    assert_eq!(app.selection_index, 4);
}

#[test]
fn moving_up_scrolls_back() {
    let mut app = app_with(5, 12);
    for _ in 0..4 {
        app.handle(&key(Key::Down));
    }
    assert!(app.handle(&key(Key::Up)));
    assert!(app.handle(&key(Key::Up)));
    assert_eq!((app.selection_index, app.scroll_index, app.scroll_anchor), (2, 4, ScrollAnchor::Bottom));
    assert!(app.handle(&key(Key::Up)));
    assert_eq!((app.selection_index, app.scroll_index, app.scroll_anchor), (1, 1, ScrollAnchor::Top));
    assert!(app.handle(&key(Key::Up)));
    assert!(!app.handle(&key(Key::Up)));
    assert_eq!((app.selection_index, app.scroll_index, app.scroll_anchor), (0, 0, ScrollAnchor::Top));
}

#[test]
fn expanding_the_selection_keeps_it_visible() {
    let mut app = app_with(5, 12);
    app.handle(&key(Key::Down));
    app.handle(&key(Key::Down));
    assert_eq!((app.scroll_index, app.scroll_anchor), (0, ScrollAnchor::Top));
    assert!(app.handle(&key(Key::Char(' '))));
    assert!(app.streams[2].expanded);
    assert_eq!((app.scroll_index, app.scroll_anchor), (2, ScrollAnchor::Bottom));
    let hs: Vec<usize> = app.active_streams().iter().map(|s| s.height()).collect();
    assert_eq!(hs, vec![3, 3, 6, 3, 3]);
    let (top, bottom) = visible_range(&hs, app.scroll_index, app.scroll_anchor, 10);
    assert!(top <= app.selection_index && app.selection_index <= bottom);
    assert!(app.handle(&key(Key::Char(' '))));
    assert!(!app.streams[2].expanded);
}

#[test]
fn expansion_targets_the_selected_active_entry() {
    let mut app = app_with(4, 40);
    app.streams[0].active = false;
    app.handle(&key(Key::Down));
    app.handle(&key(Key::Char(' ')));
    assert!(!app.streams[1].expanded);
    assert!(app.streams[2].expanded);
    assert_eq!(app.active_streams().len(), 3);
}

#[test]
fn resize_rescrolls_to_the_selection() {
    let mut app = app_with(5, 12);
    app.handle(&key(Key::Down));
    app.handle(&key(Key::Down));
    app.resize(100, 8);
    assert_eq!((app.width, app.height), (100, 8));
    assert_eq!((app.scroll_index, app.scroll_anchor), (2, ScrollAnchor::Bottom));
}

#[test]
fn tiny_terminal_keeps_selection_as_scroll_position() {
    let mut app = app_with(3, 12);
    app.resize(10, 1);
    assert!(app.handle(&key(Key::Down)));
    assert_eq!((app.selection_index, app.scroll_index, app.scroll_anchor), (1, 1, ScrollAnchor::Bottom));
}

#[test]
fn wheel_is_inverted() {
    let mut app = app_with(3, 40);
    assert!(app.handle(&Event::MousePress(MouseButton::WheelUp)));
    assert_eq!(app.selection_index, 1);
    assert!(app.handle(&Event::MousePress(MouseButton::WheelDown)));
    assert_eq!(app.selection_index, 0);
    assert!(!app.handle(&Event::MousePress(MouseButton::Other)));
}

#[test]
fn interval_cursor_stops_at_both_ends() {
    let mut app = app_with(1, 40);
    assert_eq!(app.interval_index, 3);
    assert_eq!(app.interval().milliseconds, 1_000);
    for _ in 0..20 {
        app.handle(&key(Key::Char('+')));
    }
    assert_eq!(app.interval_index, 10);
    assert_eq!(app.interval(), Interval::new(300_000, 12));
    assert!(!app.handle(&key(Key::Char('+'))));
    for _ in 0..20 {
        app.handle(&key(Key::Char('-')));
    }
    assert_eq!(app.interval_index, 0);
    assert_eq!(app.interval(), Interval::new(100, 10));
    assert!(!app.handle(&key(Key::Char('-'))));
}

#[test]
fn interval_presets_in_order() {
    let ms: Vec<u64> = intervals().iter().map(|i| i.milliseconds).collect();
    assert_eq!(ms, vec![100, 200, 500, 1_000, 2_000, 3_000, 5_000, 10_000, 30_000, 60_000, 300_000]);
    let spacing: Vec<usize> = intervals().iter().map(|i| i.tick_spacing).collect();
    assert_eq!(spacing, vec![10, 10, 10, 10, 15, 10, 12, 12, 10, 10, 12]);
}

#[test]
fn interval_and_menu_item_constructors() {
    let i = Interval::new(2_000, 15);
    assert_eq!((i.milliseconds, i.tick_spacing), (2_000, 15));
    let m = MenuItem::new("Q", "Quit");
    assert_eq!((m.keys.as_str(), m.label.as_str()), ("Q", "Quit"));
}

#[test]
fn screens_switch_and_menus_follow() {
    let mut app = app_with(2, 40);
    let (left, right) = app.menu();
    assert_eq!(
        labels(&left),
        vec![
            ("\u{1F805}\u{1F807}".to_string(), "Select".to_string()),
            ("Space".to_string(), "Expand".to_string()),
            ("S".to_string(), "Streams".to_string()),
            ("+-".to_string(), "Interval".to_string()),
        ]
    );
    assert_eq!(labels(&right), vec![("Q".to_string(), "Quit".to_string())]);
    assert!(app.handle(&key(Key::Char('s'))));
    assert_eq!(app.screen, Screen::Streams);
    let (left, right) = app.menu();
    assert_eq!(labels(&left).len(), 3);
    assert_eq!(labels(&left)[1], ("Space".to_string(), "Toggle".to_string()));
    assert_eq!(labels(&right), vec![("Esc".to_string(), "Done".to_string())]);
    assert!(!app.handle(&key(Key::Down)));
    assert!(!app.handle(&key(Key::Char('q'))));
    assert!(app.running);
    assert!(app.handle(&key(Key::Esc)));
    assert_eq!(app.screen, Screen::Main);
    assert_eq!(labels(&menu_for(Screen::Main).1), vec![("Q".to_string(), "Quit".to_string())]);
}

#[test]
fn quit_stops_running_once() {
    let mut app = app_with(1, 40);
    assert!(app.handle(&key(Key::Char('q'))));
    assert!(!app.running);
    assert!(!app.handle(&key(Key::Char('q'))));
}

#[test]
fn unknown_events_need_no_redraw() {
    let mut app = app_with(2, 40);
    assert!(!app.handle(&key(Key::Char('x'))));
    assert!(!app.handle(&key(Key::Esc)));
    assert!(!app.handle(&key(Key::Other)));
    assert!(!app.handle(&Event::Other));
    assert_eq!(app.selection_index, 0);
}

#[test]
fn empty_monitor_ignores_navigation() {
    let mut app = app_with(0, 40);
    assert!(!app.handle(&key(Key::Down)));
    assert!(!app.handle(&key(Key::Up)));
    assert!(!app.handle(&key(Key::Char(' '))));
    app.resize(20, 5);
    assert_eq!((app.selection_index, app.scroll_index), (0, 0));
}

#[test]
fn handling_table() {
    assert_eq!(command(Screen::Main, &key(Key::Up)), Action::SelectPrevious);
    assert_eq!(command(Screen::Main, &Event::MousePress(MouseButton::WheelDown)), Action::SelectPrevious);
    assert_eq!(command(Screen::Main, &key(Key::Char(' '))), Action::ToggleExpanded);
    assert_eq!(command(Screen::Streams, &key(Key::Char(' '))), Action::Ignore);
    assert_eq!(command(Screen::Streams, &key(Key::Esc)), Action::CloseStreams);
}
