use tuitop::app::App;
use tuitop::events::{apply_event, Event};
use tuitop::processes::collect_processes;
use tuitop::system_info::fetch_system_info;

#[test]
fn live_system_snapshot_flows_through_the_state_machine() {
    let mut sys = sysinfo::System::new_all();
    sys.refresh_all();
    let rows = collect_processes(&sys);
    // A live host runs at least this test's own process.
    assert!(rows.len() > 0);

    let mut app = App::default();
    apply_event(&mut app, Event::Processes(rows));
    // The default key is the pid column, descending: every adjacent pair
    // must be in non-ascending pid order.
    for w in app.processes.windows(2) {
        assert!(w[0].pid >= w[1].pid);
    }
}

#[test]
fn live_uptime_feeds_the_system_snapshot() {
    let info = fetch_system_info();
    let mut app = App::default();
    apply_event(&mut app, Event::SystemInfo(info));
    assert_eq!(app.system_info.uptime, info.uptime);
}
