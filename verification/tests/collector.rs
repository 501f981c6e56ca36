//! Stat parsing, CPU deltas, supervisor classification, and warnings.

use excalibur::collector::{
    detect_supervisor, detect_warnings, parse_proc_stat, parse_status_uid, short_container_id,
    ProcessCollector, ProcessInfo, ProcessWarning, RawProcessSample, Supervisor, SysParams,
};

fn stat_line(pid: u32, comm: &str, ppid: u32, utime: u64, stime: u64, start: u64, rss: u64) -> String {
    format!(
        "{pid} ({comm}) S {ppid} {pid} {pid} 0 -1 4194304 100 0 0 0 {utime} {stime} 0 0 20 0 1 0 {start} 10000000 {rss} 18446744073709551615 1 1 0 0 0 0 0 0 0 0 0 0 17 0 0 0 0 0 0"
    )
}

fn sample(pid: u32, comm: &str, ppid: u32) -> RawProcessSample {
    RawProcessSample {
        pid,
        stat_line: stat_line(pid, comm, ppid, 10, 5, 2000, 300),
        status_text: format!("Name:\t{comm}\nUid:\t1000\t1000\t1000\t1000\n"),
        cmdline: vec![comm.to_string()],
        cgroup_text: None,
    }
}

fn params() -> SysParams {
    SysParams {
        page_size: 4096,
        ticks_per_second: 100,
        boot_time_secs: 1_700_000_000,
        ncpus: 4,
        now_ms: 1_000_000,
        now_secs: 1_700_100_000,
    }
}

#[test]
fn stat_record_parses_fields() {
    let line = stat_line(42, "my proc (odd)", 7, 11, 22, 3333, 444);
    let st = parse_proc_stat(&line).unwrap();
    assert_eq!(st.comm, "my proc (odd)");
    assert_eq!(st.ppid, 7);
    assert_eq!(st.utime, 11);
    assert_eq!(st.stime, 22);
    assert_eq!(st.starttime, 3333);
    assert_eq!(st.rss_pages, 444);
}

#[test]
fn stat_record_rejects_malformed() {
    assert!(parse_proc_stat("").is_none());
    assert!(parse_proc_stat("42 no parens here").is_none());
    assert!(parse_proc_stat("42 (comm) S 1 2 3").is_none());
    assert!(parse_proc_stat("42 (comm) S x 2 3 4 5 6 7 8 9 10 11 12 13 14 15 16 17 18 19 20 21 22").is_none());
}

#[test]
fn status_uid_is_the_real_uid() {
    assert_eq!(parse_status_uid("Name:\tsshd\nUid:\t107\t107\t107\t107\nGid:\t0\n"), Some(107));
    assert_eq!(parse_status_uid(""), None);
    assert_eq!(parse_status_uid("Gid:\t0\n"), None);
}

#[test]
fn first_observation_is_zero_percent() {
    let mut c = ProcessCollector::new();
    let r = c.observe_cpu(42, 1000, 5_000, 100, 4);
    assert_eq!(r, 0);
}

#[test]
fn unchanged_cpu_time_is_zero_percent() {
    let mut c = ProcessCollector::new();
    c.observe_cpu(42, 1000, 5_000, 100, 4);
    // Much later, the cumulative CPU time has not moved.
    let r = c.observe_cpu(42, 1000, 905_000, 100, 4);
    assert_eq!(r, 0);
}

#[test]
fn one_tick_over_one_second_scales_by_tick_rate() {
    let mut c = ProcessCollector::new();
    c.observe_cpu(42, 1000, 5_000, 100, 4);
    // One tick in one second at 100 ticks/second: 1% of one CPU,
    // i.e. 100 hundredths of a percent.
    let r = c.observe_cpu(42, 1001, 6_000, 100, 4);
    assert_eq!(r, 100);
    // The same delta at 250 ticks/second is 0.4%.
    let mut c2 = ProcessCollector::new();
    c2.observe_cpu(7, 1000, 5_000, 250, 4);
    assert_eq!(c2.observe_cpu(7, 1001, 6_000, 250, 4), 40);
}

#[test]
fn cpu_percent_clamps_at_full_machine() {
    let mut c = ProcessCollector::new();
    c.observe_cpu(42, 0, 5_000, 100, 2);
    // An absurd delta clamps to 100% of each of the two CPUs.
    let r = c.observe_cpu(42, 10_000_000, 6_000, 100, 2);
    assert_eq!(r, 20_000);
}

#[test]
fn container_id_shortens_to_twelve() {
    assert_eq!(short_container_id("abcdef0123456789"), "abcdef012345");
    assert_eq!(short_container_id("abcdef012345"), "abcdef012345");
    assert_eq!(short_container_id("abc"), "abc");
    assert_eq!(short_container_id(""), "");
}

#[test]
fn cgroup_service_line_names_the_unit() {
    let text = "12:pids:/system.slice/nginx.service\n11:cpuset:/\n".to_string();
    let s = detect_supervisor(42, &Some(text), 7);
    assert_eq!(s, Supervisor::Systemd { unit: "nginx.service".to_string() });
}

#[test]
fn cgroup_docker_line_names_the_container() {
    let text = "11:cpuset:/docker/abcdef0123456789abcdef\n".to_string();
    let s = detect_supervisor(42, &Some(text), 7);
    assert_eq!(s, Supervisor::Docker { container_id: "abcdef012345".to_string() });
}

#[test]
fn supervisor_falls_back_on_parentage() {
    assert_eq!(detect_supervisor(1, &None, 0), Supervisor::Unknown);
    assert_eq!(detect_supervisor(42, &None, 1), Supervisor::Systemd { unit: "direct".to_string() });
    assert_eq!(detect_supervisor(42, &None, 7), Supervisor::Shell);
    let boring = "11:cpuset:/user.slice\n".to_string();
    assert_eq!(detect_supervisor(42, &Some(boring), 7), Supervisor::Shell);
}

fn bare_info(user: &str, cpu_centi: u64, rss: u64, start: u64) -> ProcessInfo {
    ProcessInfo {
        pid: 42,
        ppid: 1,
        name: "x".to_string(),
        cmdline: Vec::new(),
        user: user.to_string(),
        cpu_centi_percent: cpu_centi,
        memory_rss: rss,
        start_time: start,
        supervisor: Supervisor::Shell,
        warnings: Vec::new(),
    }
}

#[test]
fn warnings_cover_each_condition() {
    let now = 1_700_100_000u64;
    let quiet = detect_warnings(&bare_info("1000", 100, 1024, now - 100), now);
    assert!(quiet.is_empty());

    let root = detect_warnings(&bare_info("0", 0, 0, now), now);
    assert_eq!(root, vec![ProcessWarning::RunningAsRoot]);

    let hot = detect_warnings(&bare_info("1000", 8001, 0, now), now);
    assert_eq!(hot, vec![ProcessWarning::HighCpu { centi_percent: 8001 }]);

    let big = detect_warnings(&bare_info("1000", 0, 1_073_741_825, now), now);
    assert_eq!(big, vec![ProcessWarning::HighMemory { bytes: 1_073_741_825 }]);

    let old_start = now - 91 * 86_400;
    let ancient = detect_warnings(&bare_info("1000", 0, 0, old_start), now);
    assert_eq!(ancient, vec![ProcessWarning::LongUptime { days: 91 }]);
}

#[test]
fn collection_pass_builds_snapshots() {
    let mut c = ProcessCollector::new();
    let samples = vec![
        sample(1, "init", 0),
        sample(42, "myproc", 1),
        RawProcessSample {
            pid: 9,
            stat_line: "garbage".to_string(),
            status_text: String::new(),
            cmdline: Vec::new(),
            cgroup_text: None,
        },
    ];
    let infos = c.collect(&samples, &params());
    assert_eq!(infos.len(), 2);
    assert_eq!(infos[0].pid, 1);
    assert_eq!(infos[1].pid, 42);
    assert_eq!(infos[1].ppid, 1);
    assert_eq!(infos[1].name, "myproc");
    assert_eq!(infos[1].user, "1000");
    // First-ever observation of each pid: zero CPU.
    assert_eq!(infos[1].cpu_centi_percent, 0);
    // 300 pages of 4096 bytes.
    assert_eq!(infos[1].memory_rss, 300 * 4096);
    // Boot time plus start ticks over tick rate.
    assert_eq!(infos[1].start_time, 1_700_000_000 + 2000 / 100);
    assert_eq!(infos[1].supervisor, Supervisor::Systemd { unit: "direct".to_string() });
}

#[test]
fn memory_renders_with_one_decimal() {
    let mut info = bare_info("1000", 0, 512 * 1024, 0);
    assert_eq!(info.memory_str(), "512 KB");
    info.memory_rss = 47_448_064; // 45.25 MB, truncated to one decimal
    assert_eq!(info.memory_str(), "45.2 MB");
    info.memory_rss = 2 * 1024 * 1024 * 1024; // 2.0 GB
    assert_eq!(info.memory_str(), "2.0 GB");
    info.memory_rss = 0;
    assert_eq!(info.memory_str(), "0 KB");
}

#[test]
fn uptime_renders_by_magnitude() {
    let info = bare_info("1000", 0, 0, 1_000_000);
    assert_eq!(info.uptime_display(1_000_000 + 59), "0m");
    assert_eq!(info.uptime_display(1_000_000 + 62 * 60), "1h 2m");
    assert_eq!(info.uptime_display(1_000_000 + 2 * 86_400 + 3 * 3600 + 4 * 60), "2d 3h 4m");
    // A clock reading before the start time counts as no uptime.
    assert_eq!(info.uptime_display(999_000), "0m");
}

#[test]
fn warning_text_spells_the_condition() {
    assert_eq!(ProcessWarning::RunningAsRoot.symbol(), "! ROOT");
    assert_eq!(ProcessWarning::RunningAsRoot.description(), "Running as root");
    assert_eq!(
        ProcessWarning::HighCpu { centi_percent: 9275 }.description(),
        "High CPU usage: 92.7%"
    );
    assert_eq!(
        ProcessWarning::HighMemory { bytes: 1_610_612_736 }.description(),
        "High memory usage: 1.5 GB"
    );
    assert_eq!(
        ProcessWarning::LongUptime { days: 120 }.description(),
        "Long uptime: 120 days"
    );
}
