use tuitop::app::App;
use tuitop::events::{
    apply_event, apply_events, handle_events, handle_key, Event, KeyCode, KeyEvent, KeyEventKind,
};
use tuitop::processes::ProcessInfo;
use tuitop::system_info::SystemInfo;

fn row(pid: i32, name: &str, cpu: f32, ram: u64) -> ProcessInfo {
    ProcessInfo {
        pid,
        name: String::from(name),
        cpu_bits: cpu.to_bits(),
        ram_usage: ram,
    }
}

fn press(code: KeyCode) -> KeyEvent {
    KeyEvent { code, kind: KeyEventKind::Press }
}

fn pids(app: &App) -> Vec<i32> {
    app.processes.iter().map(|p| p.pid).collect()
}

/// An app that has already received a snapshot of `n` rows (pids 1..=n).
fn app_with_rows(n: i32) -> App {
    let mut app = App::default();
    let rows: Vec<ProcessInfo> = (1..=n).map(|i| row(i, "p", 0.0, 0)).collect();
    apply_event(&mut app, Event::Processes(rows));
    app
}

#[test]
fn default_state() {
    let app = App::default();
    assert!(!app.exit);
    assert_eq!(app.processes.len(), 0);
    assert_eq!(app.system_info.uptime, 0);
    assert_eq!(app.selected_index, None);
    assert_eq!(app.sort_column, 0);
    assert!(app.sort_desc);
}

#[test]
fn quit_key_sets_exit() {
    let mut app = App::default();
    handle_key(&mut app, press(KeyCode::Char('q')));
    assert!(app.exit);
}

#[test]
fn non_press_kind_is_ignored() {
    let mut app = App::default();
    handle_key(&mut app, KeyEvent { code: KeyCode::Char('q'), kind: KeyEventKind::Other });
    assert!(!app.exit);
}

#[test]
fn unknown_key_changes_nothing() {
    let mut app = app_with_rows(2);
    handle_key(&mut app, press(KeyCode::Char('x')));
    assert!(!app.exit);
    assert_eq!(app.selected_index, None);
    assert_eq!(app.sort_column, 0);
}

#[test]
fn down_key_walks_and_stops_at_last_row() {
    let mut app = app_with_rows(3);
    handle_key(&mut app, press(KeyCode::Down));
    assert_eq!(app.selected_index, Some(0));
    handle_key(&mut app, press(KeyCode::Down));
    assert_eq!(app.selected_index, Some(1));
    handle_key(&mut app, press(KeyCode::Down));
    handle_key(&mut app, press(KeyCode::Down));
    assert_eq!(app.selected_index, Some(2));
}

#[test]
fn up_key_walks_and_stops_at_first_row() {
    let mut app = app_with_rows(3);
    handle_key(&mut app, press(KeyCode::Up));
    assert_eq!(app.selected_index, Some(0));
    handle_key(&mut app, press(KeyCode::Down));
    handle_key(&mut app, press(KeyCode::Down));
    handle_key(&mut app, press(KeyCode::Up));
    assert_eq!(app.selected_index, Some(1));
    handle_key(&mut app, press(KeyCode::Up));
    handle_key(&mut app, press(KeyCode::Up));
    assert_eq!(app.selected_index, Some(0));
}

#[test]
fn down_key_on_empty_table_selects_nothing() {
    let mut app = App::default();
    handle_key(&mut app, press(KeyCode::Down));
    assert_eq!(app.selected_index, None);
    handle_key(&mut app, press(KeyCode::Up));
    assert_eq!(app.selected_index, None);
}

#[test]
fn left_key_wraps_to_last_column() {
    let mut app = App::default();
    assert_eq!(app.sort_column, 0);
    handle_key(&mut app, press(KeyCode::Left));
    assert_eq!(app.sort_column, 3);
}

#[test]
fn right_key_wraps_to_first_column() {
    let mut app = App::default();
    for _ in 0..3 {
        handle_key(&mut app, press(KeyCode::Right));
    }
    assert_eq!(app.sort_column, 3);
    handle_key(&mut app, press(KeyCode::Right));
    assert_eq!(app.sort_column, 0);
}

#[test]
fn toggle_key_flips_direction_and_resorts() {
    let mut app = App::default();
    assert!(app.sort_desc);
    apply_event(&mut app, Event::Processes(vec![row(2, "b", 0.0, 0), row(5, "a", 0.0, 0)]));
    assert_eq!(pids(&app), vec![5, 2]);
    handle_key(&mut app, press(KeyCode::Char('s')));
    assert!(!app.sort_desc);
    assert_eq!(pids(&app), vec![2, 5]);
}

#[test]
fn snapshot_is_sorted_by_current_key_at_once() {
    let mut app = App::default();
    // Flip to ascending, then sort by pid.
    handle_key(&mut app, press(KeyCode::Char('s')));
    apply_event(&mut app, Event::Processes(vec![row(5, "a", 10.0, 0), row(2, "b", 90.0, 0)]));
    assert_eq!(pids(&app), vec![2, 5]);
    // Descending by pid.
    handle_key(&mut app, press(KeyCode::Char('s')));
    assert_eq!(pids(&app), vec![5, 2]);
    // Back to ascending, move the sort key to the cpu column.
    handle_key(&mut app, press(KeyCode::Char('s')));
    handle_key(&mut app, press(KeyCode::Right));
    handle_key(&mut app, press(KeyCode::Right));
    assert_eq!(app.sort_column, 2);
    assert_eq!(pids(&app), vec![5, 2]);
}

#[test]
fn empty_snapshot_clears_selection() {
    let mut app = app_with_rows(3);
    for _ in 0..3 {
        handle_key(&mut app, press(KeyCode::Down));
    }
    assert_eq!(app.selected_index, Some(2));
    apply_event(&mut app, Event::Processes(Vec::new()));
    assert_eq!(app.processes.len(), 0);
    assert_eq!(app.selected_index, None);
}

#[test]
fn shrinking_snapshot_clamps_selection_to_last_row() {
    let mut app = app_with_rows(5);
    for _ in 0..5 {
        handle_key(&mut app, press(KeyCode::Down));
    }
    assert_eq!(app.selected_index, Some(4));
    apply_event(&mut app, Event::Processes(vec![row(1, "a", 0.0, 0), row(2, "b", 0.0, 0)]));
    assert_eq!(app.selected_index, Some(1));
}

#[test]
fn system_info_event_replaces_snapshot_wholesale() {
    let mut app = App::default();
    apply_event(&mut app, Event::SystemInfo(SystemInfo { uptime: 12345 }));
    assert_eq!(app.system_info.uptime, 12345);
    apply_event(&mut app, Event::SystemInfo(SystemInfo { uptime: 7 }));
    assert_eq!(app.system_info.uptime, 7);
}

#[test]
fn applying_no_events_changes_nothing() {
    let mut app = app_with_rows(3);
    handle_key(&mut app, press(KeyCode::Down));
    let exit = app.exit;
    let before = pids(&app);
    let sel = app.selected_index;
    let col = app.sort_column;
    let desc = app.sort_desc;
    let uptime = app.system_info.uptime;
    apply_events(&mut app, Vec::new());
    assert_eq!(app.exit, exit);
    assert_eq!(pids(&app), before);
    assert_eq!(app.selected_index, sel);
    assert_eq!(app.sort_column, col);
    assert_eq!(app.sort_desc, desc);
    assert_eq!(app.system_info.uptime, uptime);
}

#[test]
fn batched_events_apply_in_order() {
    let mut app = App::default();
    let events = vec![
        Event::Input(press(KeyCode::Char('s'))),
        Event::Processes(vec![row(5, "a", 10.0, 0), row(2, "b", 90.0, 0)]),
        Event::Input(press(KeyCode::Down)),
        Event::Input(press(KeyCode::Down)),
        Event::SystemInfo(SystemInfo { uptime: 60 }),
    ];
    apply_events(&mut app, events);
    assert_eq!(pids(&app), vec![2, 5]);
    assert_eq!(app.selected_index, Some(1));
    assert_eq!(app.system_info.uptime, 60);
    assert!(!app.exit);
}

#[test]
fn handle_events_drains_the_channel_in_order() {
    let (tx, rx) = std::sync::mpsc::channel::<Event>();
    let mut app = App::default();
    tx.send(Event::Input(press(KeyCode::Char('s')))).unwrap();
    tx.send(Event::Processes(vec![row(3, "a", 0.0, 0), row(1, "b", 0.0, 0)])).unwrap();
    tx.send(Event::Input(press(KeyCode::Down))).unwrap();
    handle_events(&mut app, &rx);
    assert_eq!(pids(&app), vec![1, 3]);
    assert_eq!(app.selected_index, Some(0));
    // Nothing left pending: another drain leaves the state untouched.
    handle_events(&mut app, &rx);
    assert_eq!(pids(&app), vec![1, 3]);
    assert_eq!(app.selected_index, Some(0));
}

#[test]
fn quit_via_event_batch() {
    let mut app = App::default();
    apply_events(&mut app, vec![Event::Input(press(KeyCode::Char('q')))]);
    assert!(app.exit);
}
