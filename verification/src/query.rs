//! The query engine: parses a query, locates matching processes in a
//! captured system snapshot, and assembles each match into a complete
//! result with its ancestor chain and network bindings.

use vstd::prelude::*;

use crate::collector::{
    info_views, sample_views, spec_collect, spec_collect_map, ProcessCollector, ProcessInfo,
    ProcessInfoView, RawProcessSample, Supervisor, SupervisorView, SysParams,
};
use crate::network::{
    build_inode_map, get_process_bindings, has_listener, lookup_pid, parse_connections,
    scan_views, spec_connections, spec_find_by_port, spec_inode_pairs, find_process_by_port,
    NetworkBinding, PortLookupError, Protocol,
};
use crate::strutil::{
    contains_sub, is_substr, lemma_filter_push, lower_of, lowercase, parse_u64_dec,
    spec_parse_u64_dec, split_once_char, views_of,
};
use crate::systemd::{pair_views, spec_kv_lines, SystemdMetadata, SystemdMetadataView};

verus! {

/// What a query asks for.
#[derive(Debug, Clone, PartialEq)]
pub enum QueryType {
    /// Case-insensitive substring match against process names.
    ByName(String),
    /// An exact process id.
    ByPid(u32),
    /// A listening port.
    ByPort(u16),
}

/// Mathematical image of a `QueryType`.
pub enum QueryTypeView {
    ByName(Seq<char>),
    ByPid(u32),
    ByPort(u16),
}

impl View for QueryType {
    type V = QueryTypeView;

    open spec fn view(&self) -> QueryTypeView {
        match self {
            QueryType::ByName(s) => QueryTypeView::ByName(s@),
            QueryType::ByPid(p) => QueryTypeView::ByPid(*p),
            QueryType::ByPort(p) => QueryTypeView::ByPort(*p),
        }
    }
}

/// Why raw query text could not be understood.
#[derive(Debug, Clone, Copy, PartialEq, Eq, Structural)]
pub enum QueryParseError {
    /// The input was empty.
    Empty,
    /// A leading colon announced a port, but what followed was not a
    /// port number.
    InvalidPort,
}

/// What parsing raw query text yields: a leading `':'` announces a
/// port; otherwise a whole decimal number that fits a pid is a pid
/// query, and anything else is a name query.
pub open spec fn spec_parse_query(s: Seq<char>) -> Result<QueryTypeView, QueryParseError> {
    if s.len() == 0 {
        Err(QueryParseError::Empty)
    } else if s[0] == ':' {
        let rest = s.subrange(1, s.len() as int);
        if spec_parse_u64_dec(rest) is Some && spec_parse_u64_dec(rest)->Some_0 <= u16::MAX {
            Ok(QueryTypeView::ByPort(spec_parse_u64_dec(rest)->Some_0 as u16))
        } else {
            Err(QueryParseError::InvalidPort)
        }
    } else if spec_parse_u64_dec(s) is Some && spec_parse_u64_dec(s)->Some_0 <= u32::MAX {
        Ok(QueryTypeView::ByPid(spec_parse_u64_dec(s)->Some_0 as u32))
    } else {
        Ok(QueryTypeView::ByName(s))
    }
}

/// Parses raw query text: `":8080"` asks for port 8080, `"42"` for
/// pid 42, and anything else, such as `"sshd"`, for a name match.
pub fn parse_query(input: &str) -> (r: Result<QueryType, QueryParseError>)
    ensures
        match r {
            Ok(q) => spec_parse_query(input@) == Ok::<QueryTypeView, QueryParseError>(q@),
            Err(e) => spec_parse_query(input@) == Err::<QueryTypeView, QueryParseError>(e),
        },
{
    let n = input.unicode_len();
    if n == 0 {
        return Err(QueryParseError::Empty);
    }
    if input.get_char(0) == ':' {
        let rest = input.substring_char(1, n);
        return match parse_u64_dec(rest) {
            Some(v) => {
                if v <= 0xFFFF {
                    Ok(QueryType::ByPort(v as u16))
                } else {
                    Err(QueryParseError::InvalidPort)
                }
            },
            None => Err(QueryParseError::InvalidPort),
        };
    }
    match parse_u64_dec(input) {
        Some(v) => {
            if v <= 0xFFFF_FFFF {
                return Ok(QueryType::ByPid(v as u32));
            }
        },
        None => {},
    }
    Ok(QueryType::ByName(input.to_owned()))
}

/// Why a query returned nothing.
#[derive(Debug, Clone, Copy, PartialEq, Eq, Structural)]
pub enum QueryError {
    /// The queried pid or port matched nothing; the process may simply
    /// have exited already.
    NotFound,
    /// A listener on the queried port exists but could not be
    /// attributed to a process; elevated privileges are typically
    /// required to read other users' descriptors.
    PermissionHint,
}

/// Index of the first snapshot with the given pid at or after `from`,
/// or `-1` if there is none.
pub open spec fn find_pid_at(table: Seq<ProcessInfoView>, pid: u32, from: int) -> int
    decreases table.len() - from,
{
    if from < 0 || from >= table.len() {
        -1
    } else if table[from].pid == pid {
        from
    } else {
        find_pid_at(table, pid, from + 1)
    }
}

pub proof fn lemma_find_pid(table: Seq<ProcessInfoView>, pid: u32, from: int)
    requires
        0 <= from <= table.len(),
    ensures
        find_pid_at(table, pid, from) == -1 || from <= find_pid_at(table, pid, from)
            < table.len(),
        find_pid_at(table, pid, from) >= 0 ==> table[find_pid_at(table, pid, from)].pid == pid,
        find_pid_at(table, pid, from) == -1 ==> forall|j: int|
            from <= j < table.len() ==> table[j].pid != pid,
    decreases table.len() - from,
{
    if from < table.len() && table[from].pid != pid {
        lemma_find_pid(table, pid, from + 1);
    }
}

/// First snapshot in the table with the given pid, if any.
pub fn find_by_pid(table: &Vec<ProcessInfo>, pid: u32) -> (r: Option<usize>)
    ensures
        match r {
            Some(i) => i == find_pid_at(info_views(table@), pid, 0) && i < table@.len(),
            None => find_pid_at(info_views(table@), pid, 0) == -1,
        },
{
    let ghost tv = info_views(table@);
    let mut i: usize = 0;
    while i < table.len()
        invariant
            0 <= i <= table@.len(),
            tv == info_views(table@),
            tv.len() == table@.len(),
            find_pid_at(tv, pid, 0) == find_pid_at(tv, pid, i as int),
        decreases table.len() - i,
    {
        proof {
            assert(tv[i as int] == table@[i as int]@);
        }
        if table[i].pid == pid {
            return Some(i);
        }
        i = i + 1;
    }
    None
}

/// The walk up the parent links: at most `hops` snapshots, stopping at
/// pid 1 or at a pid the table does not hold.
pub open spec fn spec_chain(
    table: Seq<ProcessInfoView>,
    current: u32,
    hops: nat,
) -> Seq<ProcessInfoView>
    decreases hops,
{
    if current == 1 || hops == 0 {
        Seq::empty()
    } else {
        let i = find_pid_at(table, current, 0);
        if i < 0 {
            Seq::empty()
        } else {
            seq![table[i]] + spec_chain(table, table[i].ppid, (hops - 1) as nat)
        }
    }
}

/// The pid at which the walk stops.
pub open spec fn spec_chain_end(table: Seq<ProcessInfoView>, current: u32, hops: nat) -> u32
    decreases hops,
{
    if current == 1 || hops == 0 {
        current
    } else {
        let i = find_pid_at(table, current, 0);
        if i < 0 {
            current
        } else {
            spec_chain_end(table, table[i].ppid, (hops - 1) as nat)
        }
    }
}

pub proof fn lemma_chain_len(table: Seq<ProcessInfoView>, current: u32, hops: nat)
    ensures
        spec_chain(table, current, hops).len() <= hops,
    decreases hops,
{
    if !(current == 1 || hops == 0) {
        let i = find_pid_at(table, current, 0);
        if i >= 0 {
            lemma_chain_len(table, table[i].ppid, (hops - 1) as nat);
        }
    }
}

/// The walk reached pid 1 and the table holds a snapshot of pid 1.
pub open spec fn chain_reaches_init(table: Seq<ProcessInfoView>, pid: u32) -> bool {
    spec_chain_end(table, pid, 100) == 1 && find_pid_at(table, 1, 0) >= 0
}

/// The full ancestor chain for `pid`: the walk bounded at 100 hops,
/// pid 1's snapshot appended when the walk reached it, all reversed so
/// the oldest ancestor comes first and the queried process last.
pub open spec fn spec_ancestor_chain(table: Seq<ProcessInfoView>, pid: u32) -> Seq<
    ProcessInfoView,
> {
    let walk = spec_chain(table, pid, 100);
    let with_init = if chain_reaches_init(table, pid) {
        walk + seq![table[find_pid_at(table, 1, 0)]]
    } else {
        walk
    };
    with_init.reverse()
}

/// The elements of `v` in reverse order.
fn reversed_infos(v: &Vec<ProcessInfo>) -> (r: Vec<ProcessInfo>)
    ensures
        info_views(r@) == info_views(v@).reverse(),
{
    let n = v.len();
    let mut out: Vec<ProcessInfo> = Vec::new();
    let mut i: usize = 0;
    while i < n
        invariant
            0 <= i <= n,
            n == v@.len(),
            out@.len() == i,
            forall|j: int| 0 <= j < i ==> info_views(out@)[j] == info_views(v@)[n - 1 - j],
        decreases n - i,
    {
        let ghost old_out = out@;
        out.push(v[n - 1 - i].duplicate());
        proof {
            assert(info_views(out@) =~= info_views(old_out).push(out@.last()@));
            assert(info_views(out@)[i as int] == info_views(v@)[n - 1 - i]);
        }
        i = i + 1;
    }
    proof {
        assert(info_views(out@) =~= info_views(v@).reverse());
    }
    out
}

/// Builds the ancestor chain of `pid` from a snapshot table: follows
/// the parent links for at most 100 hops, stops silently at a pid the
/// table lacks, appends pid 1's snapshot when the walk reached it, and
/// reverses, so index 0 is the oldest ancestor and the last element
/// the queried process.
///
/// The chain never exceeds 101 entries, and whenever the walk reached
/// pid 1 the first entry's pid is 1.
pub fn build_ancestor_chain(table: &Vec<ProcessInfo>, pid: u32) -> (r: Vec<ProcessInfo>)
    ensures
        info_views(r@) == spec_ancestor_chain(info_views(table@), pid),
        r@.len() <= 101,
        chain_reaches_init(info_views(table@), pid) ==> r@.len() >= 1 && info_views(
            r@,
        )[0].pid == 1,
{
    let ghost tv = info_views(table@);
    let mut chain: Vec<ProcessInfo> = Vec::new();
    let mut current: u32 = pid;
    let mut stuck = false;
    proof {
        lemma_chain_len(tv, pid, 100);
    }
    while !stuck && current != 1 && chain.len() < 100
        invariant
            tv == info_views(table@),
            chain@.len() <= 100,
            spec_chain(tv, pid, 100) == info_views(chain@) + spec_chain(
                tv,
                current,
                (100 - chain@.len()) as nat,
            ),
            spec_chain_end(tv, pid, 100) == spec_chain_end(
                tv,
                current,
                (100 - chain@.len()) as nat,
            ),
            stuck ==> find_pid_at(tv, current, 0) == -1 && current != 1,
        decreases 100 - chain@.len() + if stuck {
            0int
        } else {
            1int
        },
    {
        match find_by_pid(table, current) {
            Some(idx) => {
                let ghost old_chain = chain@;
                let next = table[idx].ppid;
                chain.push(table[idx].duplicate());
                proof {
                    assert(info_views(chain@) =~= info_views(old_chain).push(tv[idx as int]));
                    assert(spec_chain(tv, current, (100 - old_chain.len()) as nat) =~= seq![
                        tv[idx as int],
                    ] + spec_chain(tv, next, (100 - chain@.len()) as nat));
                    assert(info_views(chain@) + spec_chain(tv, next, (100 - chain@.len()) as nat)
                        =~= info_views(old_chain) + spec_chain(
                        tv,
                        current,
                        (100 - old_chain.len()) as nat,
                    ));
                }
                current = next;
            },
            None => {
                stuck = true;
            },
        }
    }
    proof {
        let rem = (100 - chain@.len()) as nat;
        assert(spec_chain(tv, current, rem) =~= Seq::<ProcessInfoView>::empty());
        assert(info_views(chain@) + Seq::<ProcessInfoView>::empty() =~= info_views(chain@));
        assert(info_views(chain@) == spec_chain(tv, pid, 100));
        assert(spec_chain_end(tv, pid, 100) == current);
    }
    if current == 1 {
        match find_by_pid(table, 1) {
            Some(idx) => {
                let ghost old_chain = chain@;
                chain.push(table[idx].duplicate());
                proof {
                    assert(info_views(chain@) =~= info_views(old_chain).push(tv[idx as int]));
                    assert(info_views(chain@) =~= spec_chain(tv, pid, 100) + seq![
                        tv[find_pid_at(tv, 1, 0)],
                    ]);
                }
            },
            None => {},
        }
    }
    let r = reversed_infos(&chain);
    proof {
        lemma_chain_len(tv, pid, 100);
        assert(info_views(r@) == spec_ancestor_chain(tv, pid));
        if chain_reaches_init(tv, pid) {
            let walk = spec_chain(tv, pid, 100);
            let with_init = walk + seq![tv[find_pid_at(tv, 1, 0)]];
            assert(info_views(chain@) =~= with_init);
            assert(with_init.reverse()[0] == with_init[with_init.len() - 1]);
            lemma_find_pid(tv, 1, 0);
            assert(with_init[with_init.len() - 1].pid == 1);
        }
    }
    r
}

/// One complete query answer: the matched process, its ancestor chain
/// oldest-first, and independently optional context. The working
/// directory, environment, and unit metadata come from further reads;
/// a result is assembled with them absent and they are attached
/// afterwards, each one optional and none able to fail the query.
#[derive(Debug)]
pub struct QueryResult {
    pub process: ProcessInfo,
    /// Oldest ancestor first; the queried process last.
    pub ancestor_chain: Vec<ProcessInfo>,
    pub working_directory: Option<String>,
    /// Environment variables as key-value pairs.
    pub environment: Vec<(String, String)>,
    pub network_bindings: Vec<NetworkBinding>,
    /// Unit metadata, attempted only for a systemd-supervised process.
    pub systemd_metadata: Option<SystemdMetadata>,
}

/// Mathematical image of a `QueryResult`.
pub struct QueryResultView {
    pub process: ProcessInfoView,
    pub ancestor_chain: Seq<ProcessInfoView>,
    pub working_directory: Option<Seq<char>>,
    pub environment: Seq<(Seq<char>, Seq<char>)>,
    pub network_bindings: Seq<NetworkBinding>,
    pub systemd_metadata: Option<SystemdMetadataView>,
}

impl View for QueryResult {
    type V = QueryResultView;

    open spec fn view(&self) -> QueryResultView {
        QueryResultView {
            process: self.process@,
            ancestor_chain: info_views(self.ancestor_chain@),
            working_directory: match self.working_directory {
                Some(ref s) => Some(s@),
                None => None,
            },
            environment: pair_views(self.environment@),
            network_bindings: self.network_bindings@,
            systemd_metadata: match self.systemd_metadata {
                Some(ref m) => Some(m@),
                None => None,
            },
        }
    }
}

/// The views of a sequence of query results.
pub open spec fn result_views(v: Seq<QueryResult>) -> Seq<QueryResultView> {
    v.map_values(|x: QueryResult| x@)
}

/// The result assembled for one matched process from the snapshot
/// data alone: chain and bindings computed, the three further-read
/// fields absent.
pub open spec fn spec_query_result(
    p: ProcessInfoView,
    table: Seq<ProcessInfoView>,
    conns: Seq<NetworkBinding>,
    imap: Seq<(u64, u32)>,
) -> QueryResultView {
    QueryResultView {
        process: p,
        ancestor_chain: spec_ancestor_chain(table, p.pid),
        working_directory: None,
        environment: Seq::empty(),
        network_bindings: conns.filter(
            |c: NetworkBinding| lookup_pid(imap, c.inode) == Some(p.pid),
        ),
        systemd_metadata: None,
    }
}

/// Assembles the snapshot-only part of a query result: the ancestor
/// chain and the network bindings attributed to the process.
pub fn build_query_result(
    process: ProcessInfo,
    table: &Vec<ProcessInfo>,
    conns: &Vec<NetworkBinding>,
    imap: &Vec<(u64, u32)>,
) -> (r: QueryResult)
    ensures
        r@ == spec_query_result(process@, info_views(table@), conns@, imap@),
{
    let chain = build_ancestor_chain(table, process.pid);
    let bindings = get_process_bindings(conns, imap, process.pid);
    let r = QueryResult {
        process,
        ancestor_chain: chain,
        working_directory: None,
        environment: Vec::new(),
        network_bindings: bindings,
        systemd_metadata: None,
    };
    proof {
        assert(pair_views(r.environment@) =~= Seq::<(Seq<char>, Seq<char>)>::empty());
    }
    r
}

/// `name` matches a process name when the lowercase folding of `name`
/// occurs inside the lowercase folding of the process name.
pub open spec fn name_matches(name: Seq<char>, proc_name: Seq<char>) -> bool {
    is_substr(lower_of(name), lower_of(proc_name))
}

/// A name query is total: when no snapshot's name matches, it yields
/// the empty result list, never an error. `execute` already returns
/// `Ok` for every name query; this pins down that zero matches mean
/// zero results.
pub proof fn lemma_name_query_empty(
    table: Seq<ProcessInfoView>,
    conns: Seq<NetworkBinding>,
    imap: Seq<(u64, u32)>,
    name: Seq<char>,
)
    requires
        forall|i: int| 0 <= i < table.len() ==> !name_matches(name, #[trigger] table[i].name),
    ensures
        spec_name_results(table, conns, imap, name).len() == 0,
{
    let pred = |p: ProcessInfoView| name_matches(name, p.name);
    assert(forall|i: int| 0 <= i < table.len() ==> !pred(#[trigger] table[i]));
    crate::strutil::lemma_filter_none(table, pred);
}

/// Everything one query needs from the machine, captured at the edge:
/// the raw process samples, the machine parameters, the two socket
/// tables' text, and the descriptor-scan items.
#[derive(Debug)]
pub struct SystemSnapshot {
    pub samples: Vec<RawProcessSample>,
    pub params: SysParams,
    /// Text of the TCP socket table.
    pub tcp_text: String,
    /// Text of the UDP socket table.
    pub udp_text: String,
    /// One item per descriptor symlink: owning pid and target text.
    pub fd_scan: Vec<(u32, String)>,
}

/// Mathematical image of a `SystemSnapshot`.
pub struct SystemSnapshotView {
    pub samples: Seq<crate::collector::RawSampleView>,
    pub params: SysParams,
    pub tcp_text: Seq<char>,
    pub udp_text: Seq<char>,
    pub fd_scan: Seq<(u32, Seq<char>)>,
}

impl View for SystemSnapshot {
    type V = SystemSnapshotView;

    open spec fn view(&self) -> SystemSnapshotView {
        SystemSnapshotView {
            samples: sample_views(self.samples@),
            params: self.params,
            tcp_text: self.tcp_text@,
            udp_text: self.udp_text@,
            fd_scan: scan_views(self.fd_scan@),
        }
    }
}

/// The snapshot table a query works on: one collection pass over the
/// captured samples against the cache `m`.
pub open spec fn snap_table(m: Map<u32, crate::collector::CpuSample>, sv: SystemSnapshotView) -> Seq<
    ProcessInfoView,
> {
    spec_collect(m, sv.samples, sv.params)
}

/// The bindings a query works on: the TCP table's rows then the UDP
/// table's rows.
pub open spec fn snap_conns(sv: SystemSnapshotView) -> Seq<NetworkBinding> {
    spec_connections(sv.tcp_text, Protocol::Tcp) + spec_connections(sv.udp_text, Protocol::Udp)
}

/// The inode-to-pid map a query works on.
pub open spec fn snap_imap(sv: SystemSnapshotView) -> Seq<(u64, u32)> {
    spec_inode_pairs(sv.fd_scan)
}

/// The results of a name query: one per matching table entry, in
/// table order.
pub open spec fn spec_name_results(
    table: Seq<ProcessInfoView>,
    conns: Seq<NetworkBinding>,
    imap: Seq<(u64, u32)>,
    name: Seq<char>,
) -> Seq<QueryResultView> {
    table.filter(|p: ProcessInfoView| name_matches(name, p.name)).map_values(
        |p: ProcessInfoView| spec_query_result(p, table, conns, imap),
    )
}

/// Locates and assembles full query results. Owns the process
/// collector and with it the CPU-sample cache that survives between
/// queries.
#[derive(Debug)]
pub struct QueryEngine {
    collector: ProcessCollector,
}

impl View for QueryEngine {
    type V = Map<u32, crate::collector::CpuSample>;

    closed spec fn view(&self) -> Map<u32, crate::collector::CpuSample> {
        self.collector@
    }
}

impl QueryEngine {
    /// An engine with an empty CPU-sample cache.
    pub fn new() -> (r: QueryEngine)
        ensures
            r@ == Map::<u32, crate::collector::CpuSample>::empty(),
    {
        QueryEngine { collector: ProcessCollector::new() }
    }

    /// Executes a query against a captured snapshot and returns the
    /// ordered list of complete results.
    ///
    /// A name query always succeeds, with an empty list when nothing
    /// matches. A pid query returns exactly one result when the pid is
    /// in the snapshot and `NotFound` otherwise. A port query resolves
    /// the first listener the inode map attributes to a process;
    /// `NotFound` means nothing listens on the port (or its owner left
    /// the snapshot), and `PermissionHint` that listeners exist but
    /// none could be attributed to a process.
    pub fn execute(&mut self, query: &QueryType, snap: &SystemSnapshot) -> (r: Result<
        Vec<QueryResult>,
        QueryError,
    >)
        requires
            snap.params.ticks_per_second >= 1,
        ensures
            final(self)@ == spec_collect_map(old(self)@, snap@.samples, snap@.params),
            ({
                let table = snap_table(old(self)@, snap@);
                let conns = snap_conns(snap@);
                let imap = snap_imap(snap@);
                match query@ {
                    QueryTypeView::ByName(name) => r is Ok && result_views(r->Ok_0@)
                        == spec_name_results(table, conns, imap, name),
                    QueryTypeView::ByPid(pid) => {
                        if find_pid_at(table, pid, 0) >= 0 {
                            &&& r is Ok
                            &&& r->Ok_0@.len() == 1
                            &&& result_views(r->Ok_0@) == seq![
                                spec_query_result(table[find_pid_at(table, pid, 0)], table, conns, imap),
                            ]
                            &&& result_views(r->Ok_0@)[0].process.pid == pid
                        } else {
                            r == Err::<Vec<QueryResult>, QueryError>(QueryError::NotFound)
                        }
                    },
                    QueryTypeView::ByPort(port) => match spec_find_by_port(conns, imap, port) {
                        Some(pid) => {
                            if find_pid_at(table, pid, 0) >= 0 {
                                &&& r is Ok
                                &&& r->Ok_0@.len() == 1
                                &&& result_views(r->Ok_0@) == seq![
                                    spec_query_result(table[find_pid_at(table, pid, 0)], table, conns, imap),
                                ]
                            } else {
                                r == Err::<Vec<QueryResult>, QueryError>(QueryError::NotFound)
                            }
                        },
                        None => {
                            if has_listener(conns, port) {
                                r == Err::<Vec<QueryResult>, QueryError>(QueryError::PermissionHint)
                            } else {
                                r == Err::<Vec<QueryResult>, QueryError>(QueryError::NotFound)
                            }
                        },
                    },
                }
            }),
    {
        let table = self.collector.collect(&snap.samples, &snap.params);
        let mut conns = parse_connections(snap.tcp_text.as_str(), Protocol::Tcp);
        let mut udp = parse_connections(snap.udp_text.as_str(), Protocol::Udp);
        conns.append(&mut udp);
        let imap = build_inode_map(&snap.fd_scan);
        match query {
            QueryType::ByName(name) => Ok(query_by_name(&table, &conns, &imap, name.as_str())),
            QueryType::ByPid(pid) => query_by_pid(&table, &conns, &imap, *pid),
            QueryType::ByPort(port) => query_by_port(&table, &conns, &imap, *port),
        }
    }
}

/// All results for a name query: a case-insensitive substring match
/// over the table, in table order. Zero matches yield an empty list,
/// never an error.
fn query_by_name(
    table: &Vec<ProcessInfo>,
    conns: &Vec<NetworkBinding>,
    imap: &Vec<(u64, u32)>,
    name: &str,
) -> (r: Vec<QueryResult>)
    ensures
        result_views(r@) == spec_name_results(info_views(table@), conns@, imap@, name@),
{
    let ghost tv = info_views(table@);
    let ghost pred = |p: ProcessInfoView| name_matches(name@, p.name);
    let ghost mapper = |p: ProcessInfoView| spec_query_result(p, tv, conns@, imap@);
    let name_lower = lowercase(name);
    let mut out: Vec<QueryResult> = Vec::new();
    let mut i: usize = 0;
    proof {
        assert(tv.subrange(0, 0) =~= Seq::<ProcessInfoView>::empty());
        reveal(Seq::filter);
        assert(result_views(out@) =~= tv.subrange(0, 0).filter(pred).map_values(mapper));
    }
    while i < table.len()
        invariant
            0 <= i <= table@.len(),
            tv == info_views(table@),
            tv.len() == table@.len(),
            name_lower@ == lower_of(name@),
            pred == (|p: ProcessInfoView| name_matches(name@, p.name)),
            mapper == (|p: ProcessInfoView| spec_query_result(p, tv, conns@, imap@)),
            result_views(out@) == tv.subrange(0, i as int).filter(pred).map_values(mapper),
        decreases table.len() - i,
    {
        proof {
            assert(tv[i as int] == table@[i as int]@);
            assert(tv.subrange(0, i + 1).drop_last() =~= tv.subrange(0, i as int));
            lemma_filter_push(tv.subrange(0, i as int), pred, tv[i as int]);
            assert(tv.subrange(0, i as int).push(tv[i as int]) =~= tv.subrange(0, i + 1));
        }
        let proc_lower = lowercase(table[i].name.as_str());
        if contains_sub(proc_lower.as_str(), name_lower.as_str()) {
            let ghost old_out = out@;
            let result = build_query_result(table[i].duplicate(), table, conns, imap);
            out.push(result);
            proof {
                assert(result_views(out@) =~= result_views(old_out).push(out@.last()@));
                assert(out@.last()@ == mapper(tv[i as int]));
                assert(result_views(out@) =~= tv.subrange(0, i + 1).filter(pred).map_values(
                    mapper,
                ));
            }
        } else {
            proof {
                assert(result_views(out@) =~= tv.subrange(0, i + 1).filter(pred).map_values(
                    mapper,
                ));
            }
        }
        i = i + 1;
    }
    proof {
        assert(tv.subrange(0, i as int) =~= tv);
    }
    out
}

/// The single result for a pid query, or `NotFound` when the snapshot
/// holds no such pid: the process has likely already exited.
fn query_by_pid(
    table: &Vec<ProcessInfo>,
    conns: &Vec<NetworkBinding>,
    imap: &Vec<(u64, u32)>,
    pid: u32,
) -> (r: Result<Vec<QueryResult>, QueryError>)
    ensures
        ({
            let tv = info_views(table@);
            if find_pid_at(tv, pid, 0) >= 0 {
                &&& r is Ok
                &&& r->Ok_0@.len() == 1
                &&& result_views(r->Ok_0@) == seq![
                    spec_query_result(tv[find_pid_at(tv, pid, 0)], tv, conns@, imap@),
                ]
                &&& result_views(r->Ok_0@)[0].process.pid == pid
            } else {
                r == Err::<Vec<QueryResult>, QueryError>(QueryError::NotFound)
            }
        }),
{
    let ghost tv = info_views(table@);
    match find_by_pid(table, pid) {
        Some(idx) => {
            let result = build_query_result(table[idx].duplicate(), table, conns, imap);
            let mut out: Vec<QueryResult> = Vec::new();
            out.push(result);
            proof {
                lemma_find_pid(tv, pid, 0);
                assert(result_views(out@) =~= seq![
                    spec_query_result(tv[find_pid_at(tv, pid, 0)], tv, conns@, imap@),
                ]);
            }
            Ok(out)
        },
        None => Err(QueryError::NotFound),
    }
}

/// The single result for a port query: the first listener on the port
/// that the inode map attributes to a process in the snapshot.
/// `NotFound` means no listener, or a listener whose owner is not in
/// the snapshot; `PermissionHint` that listeners exist but none could
/// be attributed.
fn query_by_port(
    table: &Vec<ProcessInfo>,
    conns: &Vec<NetworkBinding>,
    imap: &Vec<(u64, u32)>,
    port: u16,
) -> (r: Result<Vec<QueryResult>, QueryError>)
    ensures
        ({
            let tv = info_views(table@);
            match spec_find_by_port(conns@, imap@, port) {
                Some(pid) => {
                    if find_pid_at(tv, pid, 0) >= 0 {
                        &&& r is Ok
                        &&& r->Ok_0@.len() == 1
                        &&& result_views(r->Ok_0@) == seq![
                            spec_query_result(tv[find_pid_at(tv, pid, 0)], tv, conns@, imap@),
                        ]
                    } else {
                        r == Err::<Vec<QueryResult>, QueryError>(QueryError::NotFound)
                    }
                },
                None => {
                    if has_listener(conns@, port) {
                        r == Err::<Vec<QueryResult>, QueryError>(QueryError::PermissionHint)
                    } else {
                        r == Err::<Vec<QueryResult>, QueryError>(QueryError::NotFound)
                    }
                },
            }
        }),
{
    let ghost tv = info_views(table@);
    match find_process_by_port(conns, imap, port) {
        Ok(pid) => {
            match find_by_pid(table, pid) {
                Some(idx) => {
                    let result = build_query_result(table[idx].duplicate(), table, conns, imap);
                    let mut out: Vec<QueryResult> = Vec::new();
                    out.push(result);
                    proof {
                        assert(result_views(out@) =~= seq![
                            spec_query_result(tv[find_pid_at(tv, pid, 0)], tv, conns@, imap@),
                        ]);
                    }
                    Ok(out)
                },
                None => Err(QueryError::NotFound),
            }
        },
        Err(PortLookupError::NotFound) => {
            proof {
                crate::network::lemma_no_listener_no_find(conns@, imap@, port);
            }
            Err(QueryError::NotFound)
        },
        Err(PortLookupError::PermissionLikely) => Err(QueryError::PermissionHint),
    }
}

/// The unit to ask the unit manager about: the unit name of a
/// systemd-supervised process, nothing for any other supervisor.
/// Callers attempt the external lookup only when this yields a name.
pub fn systemd_unit_of(process: &ProcessInfo) -> (r: Option<String>)
    ensures
        match process@.supervisor {
            SupervisorView::Systemd { unit } => r is Some && r->Some_0@ == unit,
            _ => r is None,
        },
{
    match &process.supervisor {
        Supervisor::Systemd { unit } => Some(unit.clone()),
        _ => None,
    }
}

/// Parses captured environment entries, each of the form `KEY=VALUE`,
/// into key-value pairs; entries without an `'='` are skipped.
pub fn parse_env_entries(entries: &Vec<String>) -> (r: Vec<(String, String)>)
    ensures
        pair_views(r@) == spec_kv_lines(views_of(entries@)),
{
    let ghost ev = views_of(entries@);
    let mut out: Vec<(String, String)> = Vec::new();
    let mut i: usize = 0;
    proof {
        assert(ev.subrange(0, ev.len() as int) =~= ev);
        assert(pair_views(out@) + spec_kv_lines(ev) =~= spec_kv_lines(ev));
    }
    while i < entries.len()
        invariant
            0 <= i <= entries@.len(),
            ev == views_of(entries@),
            ev.len() == entries@.len(),
            spec_kv_lines(ev) == pair_views(out@) + spec_kv_lines(
                ev.subrange(i as int, ev.len() as int),
            ),
        decreases entries.len() - i,
    {
        let ghost suffix = ev.subrange(i as int, ev.len() as int);
        proof {
            assert(suffix[0] == ev[i as int]);
            assert(entries@[i as int]@ == ev[i as int]);
            assert(suffix.subrange(1, suffix.len() as int) =~= ev.subrange(
                i + 1,
                ev.len() as int,
            ));
        }
        match split_once_char(entries[i].as_str(), '=') {
            Some(pair) => {
                let ghost old_out = out@;
                out.push(pair);
                proof {
                    assert(pair_views(out@) =~= pair_views(old_out).push(
                        (out@.last().0@, out@.last().1@),
                    ));
                    assert(spec_kv_lines(suffix) =~= seq![(out@.last().0@, out@.last().1@)]
                        + spec_kv_lines(ev.subrange(i + 1, ev.len() as int)));
                }
            },
            None => {
                proof {
                    assert(spec_kv_lines(suffix) =~= spec_kv_lines(
                        ev.subrange(i + 1, ev.len() as int),
                    ));
                }
            },
        }
        i = i + 1;
    }
    proof {
        assert(ev.subrange(i as int, ev.len() as int).len() == 0);
        assert(spec_kv_lines(ev) =~= pair_views(out@));
    }
    out
}

} // verus!
