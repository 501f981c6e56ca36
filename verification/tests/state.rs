//! Unit metadata parsing, history parsing, and the small state types.

use excalibur::history::{
    parse_raw_entries, relative_age, CommandEntry, FishHistoryParser, InputMode as HistoryInput,
    SortMode as HistorySort,
};
use excalibur::modules::ModuleId;
use excalibur::procstate::{InputMode as TracerInput, SortMode as TracerSort, ViewMode};
use excalibur::settings::{InputMode as SettingsInput, ProfileEntry, SettingsState};
use excalibur::systemd::{build_systemd_metadata, lookup_prop, parse_systemctl_output};
use excalibur::view::View;

const SHOW_OUTPUT: &str = "Description=A web server\n\
LoadState=loaded\n\
ActiveState=active\n\
SubState=running\n\
MainPID=4242\n\
ExecStart={ path=/usr/sbin/nginx }\n\
Restart=always\n\
WantedBy=multi-user.target graphical.target\n\
NoEqualsHere\n";

#[test]
fn show_output_parses_to_properties() {
    let props = parse_systemctl_output(SHOW_OUTPUT);
    assert_eq!(props.len(), 8);
    assert_eq!(lookup_prop(&props, "Description"), Some("A web server".to_string()));
    assert_eq!(lookup_prop(&props, "MainPID"), Some("4242".to_string()));
    assert_eq!(lookup_prop(&props, "Missing"), None);
}

#[test]
fn later_property_lines_overwrite_earlier() {
    let props = parse_systemctl_output("A=1\nA=2\n");
    assert_eq!(lookup_prop(&props, "A"), Some("2".to_string()));
}

#[test]
fn metadata_assembles_with_defaults() {
    let props = parse_systemctl_output(SHOW_OUTPUT);
    let meta = build_systemd_metadata("nginx.service", &props);
    assert_eq!(meta.unit_name, "nginx.service");
    assert_eq!(meta.description, Some("A web server".to_string()));
    assert_eq!(meta.load_state, "loaded");
    assert_eq!(meta.active_state, "active");
    assert_eq!(meta.sub_state, "running");
    assert_eq!(meta.main_pid, Some(4242));
    assert_eq!(meta.restart_policy, Some("always".to_string()));
    assert_eq!(
        meta.wanted_by,
        vec!["multi-user.target".to_string(), "graphical.target".to_string()]
    );

    let empty = parse_systemctl_output("");
    let bare = build_systemd_metadata("x.service", &empty);
    assert_eq!(bare.load_state, "unknown");
    assert_eq!(bare.active_state, "unknown");
    assert_eq!(bare.sub_state, "unknown");
    assert_eq!(bare.main_pid, None);
    assert!(bare.wanted_by.is_empty());
}

const FISH_HISTORY: &str = "- cmd: cargo build\n\
  when: 1700000000\n\
- cmd: ls -la\n\
  when: 1700000100\n\
  paths:\n\
    - /home/user\n\
    - /tmp\n\
- cmd: cargo build\n\
  when: 1700000200\n";

#[test]
fn fish_history_parses_records() {
    let entries = parse_raw_entries(FISH_HISTORY);
    assert_eq!(entries.len(), 3);
    assert_eq!(entries[0].cmd, "cargo build");
    assert_eq!(entries[0].when, 1700000000);
    assert!(entries[0].paths.is_empty());
    assert_eq!(entries[1].cmd, "ls -la");
    assert_eq!(entries[1].when, 1700000100);
    assert_eq!(entries[1].paths, vec!["/home/user".to_string(), "/tmp".to_string()]);
    assert_eq!(entries[2].cmd, "cargo build");
    assert_eq!(entries[2].when, 1700000200);
}

#[test]
fn fish_history_tolerates_noise() {
    assert!(parse_raw_entries("").is_empty());
    let odd = "junk line\nwhen: 5\n- cmd: x\nwhen: notanumber\n";
    let entries = parse_raw_entries(odd);
    assert_eq!(entries.len(), 1);
    assert_eq!(entries[0].cmd, "x");
    // The unparseable timestamp leaves the pending one, reset at the
    // command line.
    assert_eq!(entries[0].when, 0);
}

#[test]
fn history_parser_carries_its_path() {
    let p = FishHistoryParser::with_path("/home/user/fish_history".to_string());
    assert_eq!(p.history_path, "/home/user/fish_history");
    assert_eq!(p.parse_raw_entries("- cmd: pwd\n").len(), 1);
}

#[test]
fn relative_age_buckets() {
    let now = 1_700_000_000u64;
    let day = 86_400i64;
    let ts = |days_ago: i64| 1_700_000_000i64 - days_ago * day;
    assert_eq!(relative_age(now, ts(0)), "today");
    assert_eq!(relative_age(now, ts(1)), "yesterday");
    assert_eq!(relative_age(now, ts(3)), "3 days ago");
    assert_eq!(relative_age(now, ts(10)), "1 weeks ago");
    assert_eq!(relative_age(now, ts(45)), "1 months ago");
    assert_eq!(relative_age(now, ts(800)), "2 years ago");
    // A future timestamp counts as today.
    assert_eq!(relative_age(now, ts(-5)), "today");
}

#[test]
fn command_entry_formats_an_age() {
    let e = CommandEntry {
        cmd: "ls".to_string(),
        timestamp: 0,
        paths: Vec::new(),
        count: 1,
    };
    // Epoch start was a long time ago by any clock this runs under.
    let text = e.format_timestamp();
    assert!(text.ends_with("years ago"));
}

#[test]
fn sort_modes_cycle() {
    assert_eq!(HistorySort::UsageCount.next(), HistorySort::Timestamp);
    assert_eq!(HistorySort::Timestamp.next(), HistorySort::Alphabetical);
    assert_eq!(HistorySort::Alphabetical.next(), HistorySort::UsageCount);
    assert_eq!(HistorySort::UsageCount.display(), "Usage v");

    assert_eq!(TracerSort::Cpu.next(), TracerSort::Memory);
    assert_eq!(TracerSort::Memory.next(), TracerSort::Pid);
    assert_eq!(TracerSort::Pid.next(), TracerSort::Name);
    assert_eq!(TracerSort::Name.next(), TracerSort::Cpu);
    assert_eq!(TracerSort::Cpu.as_str(), "CPU");
    assert_eq!(TracerSort::Name.as_str(), "Name");
}

#[test]
fn module_names_resolve_case_insensitively() {
    assert_eq!(ModuleId::from_command_name("history"), Some(ModuleId::History));
    assert_eq!(ModuleId::from_command_name("HISTORY"), Some(ModuleId::History));
    assert_eq!(ModuleId::from_command_name("h"), Some(ModuleId::History));
    assert_eq!(ModuleId::from_command_name("nope"), None);
}

#[test]
fn view_defaults_to_the_menu() {
    assert_eq!(View::default(), View::MainMenu);
    assert_eq!(TracerInput::Normal, TracerInput::Normal);
    assert_ne!(ViewMode::List, ViewMode::Tree);
    assert_ne!(HistoryInput::Normal, HistoryInput::Search);
}

#[test]
fn settings_selection_moves_within_bounds() {
    let mut s = SettingsState::new();
    assert_eq!(s.input_mode, SettingsInput::SelectProfile);
    assert!(s.get_selected_profile().is_none());
    s.select_next();
    assert_eq!(s.selected_index, 0);
    s.profiles.push(ProfileEntry {
        name: "[active] settings.json".to_string(),
        path: "/home/u/.config/settings.json".to_string(),
        is_active: true,
    });
    s.profiles.push(ProfileEntry {
        name: "settings-work.json".to_string(),
        path: "/home/u/.config/settings-work.json".to_string(),
        is_active: false,
    });
    s.select_next();
    assert_eq!(s.selected_index, 1);
    s.select_next();
    assert_eq!(s.selected_index, 1);
    assert_eq!(s.get_selected_profile().unwrap().name, "settings-work.json");
    s.select_previous();
    assert_eq!(s.selected_index, 0);
    s.select_previous();
    assert_eq!(s.selected_index, 0);
}

#[test]
fn settings_notifications_set_and_clear() {
    let mut s = SettingsState::new();
    s.set_notification("saved".to_string());
    let (msg, _) = s.notification.clone().unwrap();
    assert_eq!(msg, "saved");
    // A fresh notification is not yet expired.
    s.clear_expired_notifications();
    assert!(s.notification.is_some());
    // An ancient notification goes away.
    s.notification = Some(("old".to_string(), 0));
    s.clear_expired_notifications();
    assert!(s.notification.is_none());
}

#[test]
fn aggregation_groups_counts_and_sorts() {
    let parser = FishHistoryParser::with_path(String::new());
    let raw = parser.parse_raw_entries(
        "- cmd: b\n  when: 10\n  paths:\n    - /x\n- cmd: a\n  when: 5\n- cmd: b\n  when: 7\n  paths:\n    - /x\n    - /a\n- cmd: b\n  when: 9\n",
    );
    let agg = parser.aggregate_commands(raw);
    assert_eq!(agg.len(), 2);
    // Most used first.
    assert_eq!(agg[0].cmd, "b");
    assert_eq!(agg[0].count, 3);
    assert_eq!(agg[0].timestamp, 10);
    // Paths deduplicated and sorted.
    assert_eq!(agg[0].paths, vec!["/a".to_string(), "/x".to_string()]);
    assert_eq!(agg[1].cmd, "a");
    assert_eq!(agg[1].count, 1);
    assert_eq!(agg[1].timestamp, 5);
    assert!(agg[1].paths.is_empty());
}

#[test]
fn aggregation_of_nothing_is_empty() {
    let parser = FishHistoryParser::with_path(String::new());
    let agg = parser.aggregate_commands(Vec::new());
    assert!(agg.is_empty());
}

#[test]
fn stats_track_first_and_last_use() {
    let parser = FishHistoryParser::with_path(String::new());
    let raw = parser.parse_raw_entries(
        "- cmd: a\n  when: 50\n- cmd: a\n  when: 10\n- cmd: a\n  when: 30\n- cmd: z\n  when: 7\n",
    );
    let stats = parser.stats_of_entries(&raw);
    assert_eq!(stats.len(), 2);
    let a = stats.iter().find(|(c, _)| c == "a").map(|(_, s)| *s).unwrap();
    assert_eq!(a.first_used, 10);
    assert_eq!(a.last_used, 50);
    assert_eq!(a.total_count, 3);
    let z = stats.iter().find(|(c, _)| c == "z").map(|(_, s)| *s).unwrap();
    assert_eq!(z.first_used, 7);
    assert_eq!(z.last_used, 7);
    assert_eq!(z.total_count, 1);
}
