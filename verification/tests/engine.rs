//! Query parsing, execution, and result assembly over synthetic
//! snapshots.

use excalibur::collector::{RawProcessSample, SysParams};
use excalibur::query::{
    build_ancestor_chain, parse_query, systemd_unit_of, QueryEngine, QueryError, QueryParseError,
    QueryType, SystemSnapshot,
};

fn stat_line(pid: u32, comm: &str, ppid: u32) -> String {
    format!(
        "{pid} ({comm}) S {ppid} {pid} {pid} 0 -1 4194304 100 0 0 0 10 5 0 0 20 0 1 0 2000 10000000 300 18446744073709551615 1 1 0 0 0 0 0 0 0 0 0 0 17 0 0 0 0 0 0"
    )
}

fn sample(pid: u32, comm: &str, ppid: u32) -> RawProcessSample {
    RawProcessSample {
        pid,
        stat_line: stat_line(pid, comm, ppid),
        status_text: "Uid:\t1000\t1000\t1000\t1000\n".to_string(),
        cmdline: vec![comm.to_string()],
        cgroup_text: None,
    }
}

fn params() -> SysParams {
    SysParams {
        page_size: 4096,
        ticks_per_second: 100,
        boot_time_secs: 1_700_000_000,
        ncpus: 4,
        now_ms: 1_000_000,
        now_secs: 1_700_100_000,
    }
}

fn snapshot(samples: Vec<RawProcessSample>) -> SystemSnapshot {
    SystemSnapshot {
        samples,
        params: params(),
        tcp_text: String::new(),
        udp_text: String::new(),
        fd_scan: Vec::new(),
    }
}

#[test]
fn query_text_parses_to_its_kind() {
    assert_eq!(parse_query(":8080"), Ok(QueryType::ByPort(8080)));
    assert_eq!(parse_query("42"), Ok(QueryType::ByPid(42)));
    assert_eq!(parse_query("sshd"), Ok(QueryType::ByName("sshd".to_string())));
    assert_eq!(parse_query(""), Err(QueryParseError::Empty));
    assert_eq!(parse_query(":sshd"), Err(QueryParseError::InvalidPort));
    assert_eq!(parse_query(":99999"), Err(QueryParseError::InvalidPort));
    // A number too large for a pid is a name.
    assert_eq!(
        parse_query("99999999999"),
        Ok(QueryType::ByName("99999999999".to_string()))
    );
}

#[test]
fn name_query_with_no_match_is_empty_not_an_error() {
    let mut engine = QueryEngine::new();
    let snap = snapshot(vec![sample(1, "init", 0), sample(42, "nginx", 1)]);
    let results = engine
        .execute(&QueryType::ByName("zzz-no-such".to_string()), &snap)
        .unwrap();
    assert!(results.is_empty());
}

#[test]
fn name_query_matches_case_insensitively() {
    let mut engine = QueryEngine::new();
    let snap = snapshot(vec![sample(1, "init", 0), sample(42, "sshd", 1)]);
    // Would fail if case folding handed its input back unchanged.
    let results = engine.execute(&QueryType::ByName("SSHD".to_string()), &snap).unwrap();
    assert_eq!(results.len(), 1);
    assert_eq!(results[0].process.pid, 42);
    let partial = engine.execute(&QueryType::ByName("SSH".to_string()), &snap).unwrap();
    assert_eq!(partial.len(), 1);
}

#[test]
fn pid_query_of_running_process_returns_exactly_one() {
    let mut engine = QueryEngine::new();
    let snap = snapshot(vec![sample(1, "init", 0), sample(42, "nginx", 1)]);
    let results = engine.execute(&QueryType::ByPid(42), &snap).unwrap();
    assert_eq!(results.len(), 1);
    assert_eq!(results[0].process.pid, 42);
}

#[test]
fn pid_query_of_absent_process_is_not_found() {
    let mut engine = QueryEngine::new();
    let snap = snapshot(vec![sample(1, "init", 0)]);
    assert!(matches!(engine.execute(&QueryType::ByPid(777), &snap), Err(QueryError::NotFound)));
}

const TCP_SAMPLE: &str = "  sl  local_address rem_address   st ...\n\
   0: 0100007F:1F90 00000000:0000 0A 00000000:00000000 00:00000000 00000000  1000        0 934413 1 0000000000000000 100 0 0 10 0\n";

#[test]
fn port_query_resolves_owner() {
    let mut engine = QueryEngine::new();
    let mut snap = snapshot(vec![sample(1, "init", 0), sample(42, "websrv", 1)]);
    snap.tcp_text = TCP_SAMPLE.to_string();
    snap.fd_scan = vec![(42u32, "socket:[934413]".to_string())];
    let results = engine.execute(&QueryType::ByPort(8080), &snap).unwrap();
    assert_eq!(results.len(), 1);
    assert_eq!(results[0].process.pid, 42);
    assert_eq!(results[0].network_bindings.len(), 1);
    assert_eq!(results[0].network_bindings[0].local_port, 8080);
}

#[test]
fn port_query_failures_are_distinguishable() {
    let mut engine = QueryEngine::new();
    let mut snap = snapshot(vec![sample(1, "init", 0)]);
    snap.tcp_text = TCP_SAMPLE.to_string();
    // Nobody listens on this port.
    assert!(matches!(
        engine.execute(&QueryType::ByPort(9999), &snap),
        Err(QueryError::NotFound)
    ));
    // A listener exists but no descriptor scan attributed it.
    assert!(matches!(
        engine.execute(&QueryType::ByPort(8080), &snap),
        Err(QueryError::PermissionHint)
    ));
}

#[test]
fn ancestor_chain_is_oldest_first_and_capped() {
    let mut engine = QueryEngine::new();
    let snap = snapshot(vec![
        sample(1, "init", 0),
        sample(10, "daemon", 1),
        sample(20, "worker", 10),
    ]);
    let results = engine.execute(&QueryType::ByPid(20), &snap).unwrap();
    let chain = &results[0].ancestor_chain;
    assert_eq!(chain.len(), 3);
    assert_eq!(chain[0].pid, 1);
    assert_eq!(chain[1].pid, 10);
    assert_eq!(chain[2].pid, 20);
    assert!(chain.len() <= 101);
}

#[test]
fn ancestor_chain_survives_a_parent_cycle() {
    // Two processes each claiming the other as parent: the walk must
    // stop at its hop bound, never exceeding 101 entries.
    let mut engine = QueryEngine::new();
    let snap = snapshot(vec![sample(5, "a", 6), sample(6, "b", 5)]);
    let results = engine.execute(&QueryType::ByPid(5), &snap).unwrap();
    let chain = &results[0].ancestor_chain;
    assert_eq!(chain.len(), 100);
    assert!(chain.len() <= 101);
    // The chain never reached init, so its first entry is not pid 1.
    assert_ne!(chain[0].pid, 1);
}

#[test]
fn ancestor_chain_stops_at_missing_parent() {
    let table_samples = vec![sample(42, "orphaned", 999)];
    let mut engine = QueryEngine::new();
    let snap = snapshot(table_samples);
    let results = engine.execute(&QueryType::ByPid(42), &snap).unwrap();
    let chain = &results[0].ancestor_chain;
    assert_eq!(chain.len(), 1);
    assert_eq!(chain[0].pid, 42);
}

#[test]
fn chain_builder_reaches_init_from_table() {
    let mut engine = QueryEngine::new();
    let snap = snapshot(vec![sample(1, "init", 0), sample(7, "svc", 1)]);
    let results = engine.execute(&QueryType::ByName("svc".to_string()), &snap).unwrap();
    let table: Vec<_> = results
        .into_iter()
        .map(|r| r.process)
        .collect();
    // Direct use of the chain builder over an explicit table.
    let chain = build_ancestor_chain(&table, 7);
    assert_eq!(chain.last().unwrap().pid, 7);
}

#[test]
fn results_leave_edge_fields_for_the_caller() {
    let mut engine = QueryEngine::new();
    let snap = snapshot(vec![sample(1, "init", 0), sample(42, "nginx", 1)]);
    let results = engine.execute(&QueryType::ByPid(42), &snap).unwrap();
    let r = &results[0];
    assert!(r.working_directory.is_none());
    assert!(r.environment.is_empty());
    assert!(r.systemd_metadata.is_none());
}

#[test]
fn unit_lookup_is_decided_by_the_supervisor() {
    let mut engine = QueryEngine::new();
    // ppid 1 with no cgroup classifies as systemd run directly.
    let snap = snapshot(vec![sample(1, "init", 0), sample(42, "svc", 1)]);
    let results = engine.execute(&QueryType::ByPid(42), &snap).unwrap();
    assert_eq!(systemd_unit_of(&results[0].process), Some("direct".to_string()));
    let init_results = engine.execute(&QueryType::ByPid(1), &snap).unwrap();
    assert_eq!(systemd_unit_of(&init_results[0].process), None);
}
