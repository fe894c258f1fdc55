use car_cli::cursor::{clamp_after_remove, next_index, prev_index};
use car_cli::record::{Record, Timestamp};
use car_cli::view::{
    dispatch, home_lines, joke_lines, menu_titles, record_cells, record_names, remaining_timeout,
    ts_text, u64_text, Action, Key, MenuItem, UiState,
};

fn ts(year: u32, month: u32, day: u32, hour: u32, minute: u32, second: u32) -> Timestamp {
    Timestamp { year, month, day, hour, minute, second }
}

fn rec(id: u64, name: &str) -> Record {
    Record {
        id,
        name: name.as_bytes().to_vec(),
        model: b"GT".to_vec(),
        engine: 3,
        category: b"sedan".to_vec(),
        age: 9,
        created_at: ts(2021, 3, 7, 9, 5, 30),
    }
}

fn cars_state(cursor: Option<usize>) -> UiState {
    UiState { tab: MenuItem::Cars, cursor }
}

#[test]
fn down_wraps_at_the_end_and_up_wraps_at_the_start() {
    // Store [A,B,C], cursor 2: Down wraps to 0, Up from 0 wraps back to 2.
    let (s1, a1) = dispatch(cars_state(Some(2)), Key::Down, 3);
    assert_eq!(a1, Action::Idle);
    assert_eq!(s1.cursor, Some(0));
    let (s2, a2) = dispatch(s1, Key::Up, 3);
    assert_eq!(a2, Action::Idle);
    assert_eq!(s2.cursor, Some(2));
}

#[test]
fn down_n_times_returns_to_the_start() {
    for n in 1..6usize {
        for start in 0..n {
            let mut i = start;
            for _ in 0..n {
                i = next_index(i, n);
            }
            assert_eq!(i, start);
            let mut j = start;
            for _ in 0..n {
                j = prev_index(j, n);
            }
            assert_eq!(j, start);
        }
    }
}

#[test]
fn up_then_down_returns_to_the_same_index() {
    for n in 1..6usize {
        for i in 0..n {
            assert_eq!(next_index(prev_index(i, n), n), i);
            assert_eq!(prev_index(next_index(i, n), n), i);
        }
    }
}

#[test]
fn deleting_the_last_record_leaves_no_cursor_and_navigation_idles() {
    // Store [A], cursor 0: delete empties the store, the cursor becomes
    // undefined, and Down/Up are no-ops until a record is added.
    let (s1, a1) = dispatch(cars_state(Some(0)), Key::Char('d'), 1);
    assert_eq!(a1, Action::DeleteAt(0));
    assert_eq!(s1.cursor, Some(0));
    let cursor = clamp_after_remove(0, 0);
    assert_eq!(cursor, None);
    let empty = cars_state(cursor);
    let (s2, a2) = dispatch(empty, Key::Down, 0);
    assert_eq!((s2, a2), (empty, Action::Idle));
    let (s3, a3) = dispatch(empty, Key::Up, 0);
    assert_eq!((s3, a3), (empty, Action::Idle));
}

#[test]
fn clamp_moves_a_trailing_cursor_to_the_new_end() {
    assert_eq!(clamp_after_remove(2, 2), Some(1));
    assert_eq!(clamp_after_remove(1, 2), Some(1));
    assert_eq!(clamp_after_remove(0, 2), Some(0));
    assert_eq!(clamp_after_remove(0, 0), None);
}

#[test]
fn tab_keys_switch_the_active_tab() {
    let start = cars_state(Some(1));
    let (s_home, a) = dispatch(start, Key::Char('h'), 3);
    assert_eq!(a, Action::Idle);
    assert_eq!(s_home.tab, MenuItem::Home);
    assert_eq!(s_home.cursor, Some(1));
    let (s_cars, _) = dispatch(s_home, Key::Char('c'), 3);
    assert_eq!(s_cars.tab, MenuItem::Cars);
    let (s_joke, _) = dispatch(s_cars, Key::Char('j'), 3);
    assert_eq!(s_joke.tab, MenuItem::Joke);
}

#[test]
fn quit_add_and_unknown_keys() {
    let start = cars_state(Some(0));
    assert_eq!(dispatch(start, Key::Char('q'), 3), (start, Action::Quit));
    assert_eq!(dispatch(start, Key::Char('a'), 3), (start, Action::AddRecord));
    assert_eq!(dispatch(start, Key::Char('x'), 3), (start, Action::Idle));
    assert_eq!(dispatch(start, Key::Other, 3), (start, Action::Idle));
    assert_eq!(dispatch(start, Key::Char('d'), 3), (start, Action::DeleteAt(0)));
    let none = cars_state(None);
    assert_eq!(dispatch(none, Key::Char('d'), 3), (none, Action::Idle));
}

#[test]
fn tabs_map_to_their_display_indices() {
    assert_eq!(usize::from(MenuItem::Home), 0);
    assert_eq!(usize::from(MenuItem::Cars), 1);
    assert_eq!(usize::from(MenuItem::Joke), 2);
}

#[test]
fn panel_text_is_the_same_fixed_content_on_every_call() {
    assert_eq!(menu_titles(), vec!["Home", "Cars", "Add", "Delete", "Quit"]);
    assert_eq!(menu_titles(), menu_titles());
    let home = home_lines();
    assert_eq!(
        home,
        vec![
            "",
            "Welcome",
            "",
            "to",
            "",
            "Car-CLI",
            "",
            "Press 'c' to access cars, 'a' to add random new car and 'd' to delete the currently selected car and 'j' for the best joke",
        ]
    );
    assert_eq!(home_lines(), home);
    let joke = joke_lines();
    assert_eq!(
        joke,
        vec![
            "",
            "Welcome to",
            "",
            "JOKE MINUTE",
            "",
            "Knok! Knok!",
            "",
            "Who's there?",
            "Control Freak.",
            "Con...",
            "OK, now you say, 'Control Freak who?'",
        ]
    );
    assert_eq!(joke_lines(), joke);
}

#[test]
fn numbers_and_timestamps_render_as_text() {
    assert_eq!(u64_text(0), b"0".to_vec());
    assert_eq!(u64_text(12345), b"12345".to_vec());
    assert_eq!(u64_text(u64::MAX), b"18446744073709551615".to_vec());
    assert_eq!(ts_text(&ts(2021, 3, 7, 9, 5, 30)), b"2021-03-07T09:05:30Z".to_vec());
    assert_eq!(ts_text(&ts(0, 12, 31, 23, 59, 59)), b"0000-12-31T23:59:59Z".to_vec());
}

#[test]
fn the_cars_panel_reads_from_the_records() {
    let a = rec(7, "Gamma");
    let b = rec(8, "Delta");
    let names = record_names(&vec![a.clone(), b.clone()]);
    assert_eq!(names, vec![b"Gamma".to_vec(), b"Delta".to_vec()]);
    let cells = record_cells(&a);
    assert_eq!(
        cells,
        vec![
            b"7".to_vec(),
            b"Gamma".to_vec(),
            b"GT".to_vec(),
            b"3".to_vec(),
            b"sedan".to_vec(),
            b"9".to_vec(),
            b"2021-03-07T09:05:30Z".to_vec(),
        ]
    );
}

#[test]
fn the_poll_timeout_counts_down_to_the_tick() {
    assert_eq!(remaining_timeout(200, 0), 200);
    assert_eq!(remaining_timeout(200, 50), 150);
    assert_eq!(remaining_timeout(200, 200), 0);
    assert_eq!(remaining_timeout(200, 250), 0);
}
