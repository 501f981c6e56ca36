//! Selection, filtering, and ordering over the two table states.

use excalibur::collector::{ProcessInfo, Supervisor};
use excalibur::history::{CommandEntry, SortMode as HistorySort};
use excalibur::history_state::HistoryState;
use excalibur::procstate::{ProcessTracerState, SortMode as TracerSort, ViewMode};

fn entry(cmd: &str, timestamp: i64, count: usize) -> CommandEntry {
    CommandEntry { cmd: cmd.to_string(), timestamp, paths: Vec::new(), count }
}

fn proc_info(pid: u32, name: &str, cpu: u64, rss: u64) -> ProcessInfo {
    ProcessInfo {
        pid,
        ppid: 1,
        name: name.to_string(),
        cmdline: Vec::new(),
        user: "1000".to_string(),
        cpu_centi_percent: cpu,
        memory_rss: rss,
        start_time: 0,
        supervisor: Supervisor::Shell,
        warnings: Vec::new(),
    }
}

fn history_fixture() -> HistoryState {
    HistoryState::new(
        vec![entry("make", 50, 2), entry("cargo build", 70, 9), entry("ls", 90, 4)],
        Vec::new(),
    )
}

#[test]
fn history_browser_starts_with_everything_visible() {
    let s = history_fixture();
    assert_eq!(s.total_count(), 3);
    assert_eq!(s.filtered_count(), 3);
    assert_eq!(s.filtered_indices, vec![0, 1, 2]);
    assert_eq!(s.get_selected_command().unwrap().cmd, "make");
}

#[test]
fn history_sorts_by_each_mode() {
    let mut s = history_fixture();
    // Default mode orders by usage.
    s.apply_sort();
    assert_eq!(s.filtered_indices, vec![1, 2, 0]);
    // Then by recency.
    s.cycle_sort_mode();
    assert_eq!(s.sort_mode, HistorySort::Timestamp);
    assert_eq!(s.filtered_indices, vec![2, 1, 0]);
    // Then alphabetically.
    s.cycle_sort_mode();
    assert_eq!(s.sort_mode, HistorySort::Alphabetical);
    assert_eq!(s.filtered_indices, vec![1, 2, 0]);
}

#[test]
fn history_search_filters_case_insensitively() {
    let mut s = history_fixture();
    s.update_search("CARGO".to_string());
    assert_eq!(s.filtered_count(), 1);
    assert_eq!(s.get_selected_command().unwrap().cmd, "cargo build");
    s.update_search(String::new());
    assert_eq!(s.filtered_count(), 3);
}

#[test]
fn history_selection_wraps() {
    let mut s = history_fixture();
    s.select_next();
    assert_eq!(s.selected_index, 1);
    s.select_last();
    assert_eq!(s.selected_index, 2);
    s.select_next();
    assert_eq!(s.selected_index, 0);
    s.select_previous();
    assert_eq!(s.selected_index, 2);
    s.page_up();
    assert_eq!(s.selected_index, 0);
    s.page_down();
    assert_eq!(s.selected_index, 2);
    s.select_first();
    assert_eq!(s.selected_index, 0);
}

#[test]
fn history_notifications_set_and_clear() {
    let mut s = history_fixture();
    s.set_notification("copied".to_string());
    assert_eq!(s.notification.clone().unwrap().0, "copied");
    s.notification = Some(("old".to_string(), 0));
    s.clear_expired_notifications();
    assert!(s.notification.is_none());
}

fn tracer_fixture() -> ProcessTracerState {
    let mut s = ProcessTracerState::new();
    s.update_processes(vec![
        proc_info(30, "bash", 500, 1000),
        proc_info(10, "nginx", 2500, 9000),
        proc_info(20, "attach", 1500, 5000),
    ]);
    s
}

#[test]
fn tracer_orders_by_each_column() {
    let mut s = tracer_fixture();
    // Default: CPU, busiest first.
    assert_eq!(s.filtered_indices, vec![1, 2, 0]);
    s.cycle_sort_mode();
    assert_eq!(s.sort_mode, TracerSort::Memory);
    assert_eq!(s.filtered_indices, vec![1, 2, 0]);
    s.cycle_sort_mode();
    assert_eq!(s.sort_mode, TracerSort::Pid);
    assert_eq!(s.filtered_indices, vec![1, 2, 0]);
    s.cycle_sort_mode();
    assert_eq!(s.sort_mode, TracerSort::Name);
    assert_eq!(s.filtered_indices, vec![2, 0, 1]);
}

#[test]
fn tracer_filters_by_name() {
    let mut s = tracer_fixture();
    s.search_query = "NGI".to_string();
    s.apply_filters();
    assert_eq!(s.get_counts(), (1, 3));
    assert_eq!(s.get_selected_process().unwrap().pid, 10);
    s.search_query = String::new();
    s.apply_filters();
    assert_eq!(s.get_counts(), (3, 3));
}

#[test]
fn tracer_view_mode_toggles() {
    let mut s = tracer_fixture();
    assert_eq!(s.view_mode, ViewMode::List);
    s.toggle_view_mode();
    assert_eq!(s.view_mode, ViewMode::Tree);
    s.toggle_view_mode();
    assert_eq!(s.view_mode, ViewMode::List);
}

#[test]
fn tracer_selection_stays_in_range_after_update() {
    let mut s = tracer_fixture();
    s.select_last();
    assert_eq!(s.selected_index, 2);
    s.update_processes(vec![proc_info(10, "nginx", 0, 0)]);
    assert!(s.selected_index < s.filtered_indices.len());
}

fn tree_fixture() -> ProcessTracerState {
    let mut s = ProcessTracerState::new();
    s.update_processes(vec![
        proc_info(1, "init", 0, 0),
        {
            let mut p = proc_info(10, "daemon", 0, 0);
            p.ppid = 1;
            p
        },
        {
            let mut p = proc_info(20, "worker", 0, 0);
            p.ppid = 10;
            p
        },
        {
            let mut p = proc_info(99, "stray", 0, 0);
            p.ppid = 12345;
            p
        },
    ]);
    // init's parent pid 1... its own entry: ppid defaults to 1 in the
    // fixture, so point it at a pid outside the snapshot.
    s.processes[0].ppid = 0;
    s
}

#[test]
fn tree_builds_roots_and_children() {
    let mut s = tree_fixture();
    s.build_tree();
    // init (parent 0 absent) and stray (parent absent) are roots.
    assert_eq!(s.tree_roots, vec![1, 99]);
    assert_eq!(s.visible_tree_nodes, vec![1, 99]);
    let node_of = |pid: u32| {
        s.tree_nodes
            .iter()
            .find(|(p, _)| *p == pid)
            .map(|(_, n)| n)
            .unwrap()
    };
    assert_eq!(node_of(1).children, vec![10]);
    assert_eq!(node_of(10).children, vec![20]);
    assert!(node_of(20).children.is_empty());
    assert_eq!(node_of(1).depth, 0);
    assert_eq!(node_of(10).depth, 1);
    assert_eq!(node_of(20).depth, 2);
    assert!(!node_of(1).is_expanded);
}

#[test]
fn tree_expansion_reveals_children() {
    let mut s = tree_fixture();
    s.toggle_view_mode();
    assert_eq!(s.view_mode, ViewMode::Tree);
    assert_eq!(s.visible_tree_nodes, vec![1, 99]);
    // Expand the root under the selection.
    s.selected_index = 0;
    s.toggle_tree_expansion();
    assert_eq!(s.visible_tree_nodes, vec![1, 10, 99]);
    // Expand the newly visible child.
    s.selected_index = 1;
    s.toggle_tree_expansion();
    assert_eq!(s.visible_tree_nodes, vec![1, 10, 20, 99]);
    assert_eq!(s.get_selected_process_tree().unwrap().pid, 10);
    // Collapse the root again: the whole subtree folds away.
    s.selected_index = 0;
    s.toggle_tree_expansion();
    assert_eq!(s.visible_tree_nodes, vec![1, 99]);
}

#[test]
fn tree_expansion_ignores_leaves() {
    let mut s = tree_fixture();
    s.toggle_view_mode();
    // The stray root has no children; toggling does nothing.
    s.selected_index = 1;
    s.toggle_tree_expansion();
    assert_eq!(s.visible_tree_nodes, vec![1, 99]);
}
