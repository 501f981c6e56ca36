//! Process snapshots: stat-line parsing, CPU-usage deltas across
//! collection passes, supervisor classification, and derived warnings.
//!
//! All readings arrive as plain text and numbers captured from the
//! process table; everything computed from them is specified exactly.

use std::collections::HashMap;

use vstd::prelude::*;

use crate::strutil::{
    append_str, contains_sub, find_ch, find_char_from, find_sub_at, find_substr, is_substr,
    last_segment, lemma_find_ch, lemma_rfind_ch, parse_u64_dec, rfind_ch, rfind_char,
    spec_dec_str, spec_fields, spec_lines, spec_parse_u64_dec, split_fields, split_lines,
    str_eq, u64_to_string, views_of,
};

verus! {

broadcast use {
    vstd::std_specs::hash::group_hash_axioms,
    vstd::std_specs::hash::axiom_u32_obeys_hash_table_key_model,
    vstd::std_specs::hash::axiom_random_state_builds_valid_hashers,
};

/// The mechanism supervising a process's lifecycle.
#[derive(Debug, Clone, PartialEq)]
pub enum Supervisor {
    Systemd { unit: String },
    Docker { container_id: String },
    Shell,
    Unknown,
}

/// Mathematical image of a `Supervisor`.
pub enum SupervisorView {
    Systemd { unit: Seq<char> },
    Docker { container_id: Seq<char> },
    Shell,
    Unknown,
}

impl View for Supervisor {
    type V = SupervisorView;

    open spec fn view(&self) -> SupervisorView {
        match self {
            Supervisor::Systemd { unit } => SupervisorView::Systemd { unit: unit@ },
            Supervisor::Docker { container_id } => SupervisorView::Docker {
                container_id: container_id@,
            },
            Supervisor::Shell => SupervisorView::Shell,
            Supervisor::Unknown => SupervisorView::Unknown,
        }
    }
}

impl Supervisor {
    /// A field-for-field copy.
    pub fn duplicate(&self) -> (r: Supervisor)
        ensures
            r@ == self@,
    {
        match self {
            Supervisor::Systemd { unit } => Supervisor::Systemd { unit: unit.clone() },
            Supervisor::Docker { container_id } => Supervisor::Docker {
                container_id: container_id.clone(),
            },
            Supervisor::Shell => Supervisor::Shell,
            Supervisor::Unknown => Supervisor::Unknown,
        }
    }
}

/// A condition worth flagging on a process.
#[derive(Debug, Clone, Copy, PartialEq, Eq, Structural)]
pub enum ProcessWarning {
    /// Owned by the superuser.
    RunningAsRoot,
    /// CPU usage above 80%, in hundredths of a percent.
    HighCpu { centi_percent: u64 },
    /// Resident set above 1 GiB, in bytes.
    HighMemory { bytes: u64 },
    /// Started more than 90 days ago.
    LongUptime { days: u64 },
}

/// One process's cumulative CPU reading, cached between collection
/// passes to compute usage deltas.
#[derive(Debug, Clone, Copy, PartialEq, Eq, Structural)]
pub struct CpuSample {
    /// Cumulative user plus kernel time, in clock ticks.
    pub total_ticks: u64,
    /// When the reading was taken, in milliseconds.
    pub at_ms: u64,
}

/// CPU percentage in hundredths of a percent: the tick delta scaled by
/// the tick rate and wall-clock interval, clamped to full use of every
/// logical CPU.
pub open spec fn spec_cpu_centi(delta_ticks: int, tps: int, wall_ms: int, ncpus: int) -> int {
    let raw = delta_ticks * 10_000_000 / (tps * wall_ms);
    let cap = 10_000 * ncpus;
    if raw > cap {
        cap
    } else {
        raw
    }
}

/// What one observation yields given the previous cached sample, if
/// any: the first observation of a pid, a non-advancing clock, and a
/// cumulative counter that moved backwards all yield zero.
pub open spec fn spec_cpu_result(
    prev: Option<CpuSample>,
    total_ticks: u64,
    now_ms: u64,
    tps: u64,
    ncpus: u32,
) -> int {
    match prev {
        None => 0,
        Some(p) => {
            if now_ms <= p.at_ms {
                0
            } else if total_ticks < p.total_ticks {
                0
            } else {
                spec_cpu_centi(
                    total_ticks - p.total_ticks,
                    tps as int,
                    now_ms - p.at_ms,
                    ncpus as int,
                )
            }
        },
    }
}

/// Collects process snapshots and keeps the per-pid CPU-sample cache
/// between passes. The cache is the only state that survives a pass;
/// it is never pruned when a pid disappears.
#[derive(Debug)]
pub struct ProcessCollector {
    samples: HashMap<u32, CpuSample>,
}

impl View for ProcessCollector {
    type V = Map<u32, CpuSample>;

    closed spec fn view(&self) -> Map<u32, CpuSample> {
        self.samples@
    }
}

impl ProcessCollector {
    /// A collector with an empty sample cache.
    pub fn new() -> (r: ProcessCollector)
        ensures
            r@ == Map::<u32, CpuSample>::empty(),
    {
        ProcessCollector { samples: HashMap::new() }
    }

    /// One CPU observation for `pid`: computes the usage since the
    /// cached sample and replaces it with this reading.
    ///
    /// The first observation of a pid yields exactly zero, as does a
    /// second observation with an unchanged cumulative CPU time,
    /// whatever wall-clock time elapsed.
    pub fn observe_cpu(
        &mut self,
        pid: u32,
        total_ticks: u64,
        now_ms: u64,
        tps: u64,
        ncpus: u32,
    ) -> (r: u64)
        requires
            tps >= 1,
        ensures
            final(self)@ == old(self)@.insert(pid, CpuSample { total_ticks, at_ms: now_ms }),
            r as int == spec_cpu_result(
                if old(self)@.contains_key(pid) {
                    Some(old(self)@[pid])
                } else {
                    None
                },
                total_ticks,
                now_ms,
                tps,
                ncpus,
            ),
            r <= 10_000 * ncpus as u64,
    {
        let prev = match self.samples.get(&pid) {
            Some(p) => Some(*p),
            None => None,
        };
        let fresh = CpuSample { total_ticks, at_ms: now_ms };
        self.samples.insert(pid, fresh);
        match prev {
            None => 0,
            Some(p) => {
                if now_ms <= p.at_ms {
                    0
                } else if total_ticks < p.total_ticks {
                    0
                } else {
                    let delta = (total_ticks - p.total_ticks) as u128;
                    let wall = (now_ms - p.at_ms) as u128;
                    proof {
                        let t = tps as int;
                        let w = wall as int;
                        let dl = delta as int;
                        assert(1 <= t <= u64::MAX && 1 <= w <= u64::MAX && 0 <= dl <= u64::MAX);
                        assert(t * w >= 1) by (nonlinear_arith)
                            requires
                                t >= 1 && w >= 1,
                        ;
                        assert(t * w <= u128::MAX) by (nonlinear_arith)
                            requires
                                1 <= t <= u64::MAX && 1 <= w <= u64::MAX,
                        ;
                        assert(dl * 10_000_000 <= u128::MAX) by (nonlinear_arith)
                            requires
                                0 <= dl <= u64::MAX,
                        ;
                    }
                    let raw = delta * 10_000_000 / ((tps as u128) * wall);
                    let cap = 10_000u128 * (ncpus as u128);
                    let centi = if raw > cap {
                        cap
                    } else {
                        raw
                    };
                    proof {
                        assert(centi <= 10_000 * ncpus);
                        assert(centi as int == spec_cpu_centi(
                            total_ticks - p.total_ticks,
                            tps as int,
                            now_ms - p.at_ms,
                            ncpus as int,
                        ));
                    }
                    centi as u64
                }
            },
        }
    }
}

/// Copies a vector of copyable items.
pub fn copy_vec<T: Copy>(v: &Vec<T>) -> (r: Vec<T>)
    ensures
        r@ == v@,
{
    let mut out: Vec<T> = Vec::new();
    let mut i: usize = 0;
    while i < v.len()
        invariant
            0 <= i <= v@.len(),
            out@ == v@.subrange(0, i as int),
        decreases v.len() - i,
    {
        out.push(v[i]);
        proof {
            assert(out@ =~= v@.subrange(0, i + 1));
        }
        i = i + 1;
    }
    proof {
        assert(v@.subrange(0, i as int) =~= v@);
    }
    out
}

/// Copies a vector of strings, character for character.
pub fn copy_string_vec(v: &Vec<String>) -> (r: Vec<String>)
    ensures
        r.deep_view() == v.deep_view(),
{
    let mut out: Vec<String> = Vec::new();
    let mut i: usize = 0;
    while i < v.len()
        invariant
            0 <= i <= v@.len(),
            out@.len() == i,
            forall|j: int| 0 <= j < i ==> out@[j]@ == #[trigger] v@[j]@,
        decreases v.len() - i,
    {
        out.push(v[i].clone());
        i = i + 1;
    }
    proof {
        assert(out.deep_view() =~~= v.deep_view());
    }
    out
}

/// One process's attributes at the moment of a collection pass.
/// A new pass wholly replaces the prior snapshot set; snapshots are
/// never mutated in place.
#[derive(Debug)]
pub struct ProcessInfo {
    pub pid: u32,
    pub ppid: u32,
    /// Command name from the process's stat record.
    pub name: String,
    /// Command-line arguments, empty for kernel threads.
    pub cmdline: Vec<String>,
    /// Owning real user id in decimal, or `?` when unreadable.
    pub user: String,
    /// CPU usage in hundredths of a percent, clamped to
    /// `10000 * logical-cpu-count`.
    pub cpu_centi_percent: u64,
    /// Resident set size in bytes.
    pub memory_rss: u64,
    /// Start timestamp in seconds since the epoch.
    pub start_time: u64,
    pub supervisor: Supervisor,
    pub warnings: Vec<ProcessWarning>,
}

/// Mathematical image of a `ProcessInfo`.
pub struct ProcessInfoView {
    pub pid: u32,
    pub ppid: u32,
    pub name: Seq<char>,
    pub cmdline: Seq<Seq<char>>,
    pub user: Seq<char>,
    pub cpu_centi_percent: u64,
    pub memory_rss: u64,
    pub start_time: u64,
    pub supervisor: SupervisorView,
    pub warnings: Seq<ProcessWarning>,
}

impl View for ProcessInfo {
    type V = ProcessInfoView;

    open spec fn view(&self) -> ProcessInfoView {
        ProcessInfoView {
            pid: self.pid,
            ppid: self.ppid,
            name: self.name@,
            cmdline: self.cmdline.deep_view(),
            user: self.user@,
            cpu_centi_percent: self.cpu_centi_percent,
            memory_rss: self.memory_rss,
            start_time: self.start_time,
            supervisor: self.supervisor@,
            warnings: self.warnings@,
        }
    }
}

impl ProcessInfo {
    /// A field-for-field copy.
    pub fn duplicate(&self) -> (r: ProcessInfo)
        ensures
            r@ == self@,
    {
        let r = ProcessInfo {
            pid: self.pid,
            ppid: self.ppid,
            name: self.name.clone(),
            cmdline: copy_string_vec(&self.cmdline),
            user: self.user.clone(),
            cpu_centi_percent: self.cpu_centi_percent,
            memory_rss: self.memory_rss,
            start_time: self.start_time,
            supervisor: self.supervisor.duplicate(),
            warnings: copy_vec(&self.warnings),
        };
        r
    }
}

/// The views of a sequence of snapshots.
pub open spec fn info_views(v: Seq<ProcessInfo>) -> Seq<ProcessInfoView> {
    v.map_values(|x: ProcessInfo| x@)
}

/// A container id cut down to the conventional short form: exactly the
/// first 12 characters when the source id is that long or longer, the
/// unmodified id otherwise.
pub open spec fn spec_short_container_id(s: Seq<char>) -> Seq<char> {
    if s.len() > 12 {
        s.subrange(0, 12)
    } else {
        s
    }
}

/// Shortens a container id to at most 12 characters.
pub fn short_container_id(id: &str) -> (r: String)
    ensures
        r@ == spec_short_container_id(id@),
        id@.len() >= 12 ==> r@.len() == 12,
        id@.len() < 12 ==> r@ == id@,
{
    let n = id.unicode_len();
    if n > 12 {
        id.substring_char(0, 12).to_owned()
    } else {
        id.to_owned()
    }
}

/// The trailing path segment of a cgroup line: what follows the last
/// `'/'`, or the whole line if it has none.
pub open spec fn spec_last_segment(l: Seq<char>) -> Seq<char> {
    l.subrange(rfind_ch(l, '/') + 1, l.len() as int)
}

/// The path segment following the first docker marker of a cgroup
/// line, shortened to the conventional id length.
pub open spec fn spec_docker_id(l: Seq<char>) -> Seq<char> {
    let start = find_sub_at(l, "/docker/"@, 0) + "/docker/"@.len();
    spec_short_container_id(l.subrange(start as int, find_ch(l, '/', start as int)))
}

/// What one pass over the cgroup lines classifies, scanning in order:
/// the first line holding a managed-service suffix names the unit; the
/// first line holding a docker marker names the container.
pub open spec fn spec_cgroup_class(lines: Seq<Seq<char>>) -> Option<SupervisorView>
    decreases lines.len(),
{
    if lines.len() == 0 {
        None
    } else {
        let l = lines[0];
        if is_substr(".service"@, l) {
            Some(SupervisorView::Systemd { unit: spec_last_segment(l) })
        } else if find_sub_at(l, "/docker/"@, 0) >= 0 {
            Some(SupervisorView::Docker { container_id: spec_docker_id(l) })
        } else {
            spec_cgroup_class(lines.subrange(1, lines.len() as int))
        }
    }
}

/// The supervisor classification of a process: its cgroup lines when
/// they decide it; otherwise pid 1 is `Unknown`, a child of pid 1 is
/// `Systemd` run directly, and anything else is `Shell`.
pub open spec fn spec_supervisor(
    pid: u32,
    cgroup: Option<Seq<char>>,
    ppid: u32,
) -> SupervisorView {
    if cgroup is Some && spec_cgroup_class(spec_lines(cgroup->Some_0)) is Some {
        spec_cgroup_class(spec_lines(cgroup->Some_0))->Some_0
    } else if pid == 1 {
        SupervisorView::Unknown
    } else if ppid == 1 {
        SupervisorView::Systemd { unit: "direct"@ }
    } else {
        SupervisorView::Shell
    }
}

/// Classifies what supervises a process from its cgroup membership
/// text (when readable) and its parent pid.
pub fn detect_supervisor(pid: u32, cgroup_text: &Option<String>, ppid: u32) -> (r: Supervisor)
    ensures
        r@ == spec_supervisor(
            pid,
            match cgroup_text {
                Some(t) => Some(t@),
                None => None::<Seq<char>>,
            },
            ppid,
        ),
{
    proof {
        reveal_strlit("/docker/");
    }
    match cgroup_text {
        Some(text) => {
            proof {
                assert((match cgroup_text {
                    Some(t) => Some(t@),
                    None => None::<Seq<char>>,
                }) == Some(text@));
            }
            let lines = split_lines(text.as_str());
            let ghost ls = spec_lines(text@);
            let mut i: usize = 0;
            proof {
                assert(ls.subrange(0, ls.len() as int) =~= ls);
            }
            while i < lines.len()
                invariant
                    0 <= i <= lines@.len(),
                    (match cgroup_text {
                        Some(t) => Some(t@),
                        None => None::<Seq<char>>,
                    }) == Some(text@),
                    ls == spec_lines(text@),
                    views_of(lines@) == ls,
                    lines@.len() == ls.len(),
                    "/docker/"@.len() == 8,
                    spec_cgroup_class(ls) == spec_cgroup_class(
                        ls.subrange(i as int, ls.len() as int),
                    ),
                decreases lines.len() - i,
            {
                let ghost suffix = ls.subrange(i as int, ls.len() as int);
                proof {
                    assert(suffix[0] == ls[i as int]);
                    assert(lines@[i as int]@ == ls[i as int]);
                    assert(suffix.subrange(1, suffix.len() as int) =~= ls.subrange(
                        i + 1,
                        ls.len() as int,
                    ));
                }
                let line = &lines[i];
                let _line_len = line.as_str().unicode_len();
                if contains_sub(line.as_str(), ".service") {
                    let unit = last_segment(line.as_str());
                    let result = Supervisor::Systemd { unit };
                    proof {
                        assert(is_substr(".service"@, ls[i as int]));
                        assert(spec_cgroup_class(suffix) == Some(
                            SupervisorView::Systemd { unit: spec_last_segment(ls[i as int]) },
                        ));
                        assert(spec_cgroup_class(ls) == Some(
                            SupervisorView::Systemd { unit: spec_last_segment(ls[i as int]) },
                        ));
                        assert(result@ == SupervisorView::Systemd {
                            unit: spec_last_segment(ls[i as int]),
                        });
                        assert(result@ == spec_supervisor(pid, Some(text@), ppid));
                    }
                    return result;
                }
                match find_substr(line.as_str(), "/docker/") {
                    Some(idx) => {
                        let start = idx + 8;
                        proof {
                            crate::strutil::lemma_find_ch(line@, '/', start as int);
                        }
                        let end = find_char_from(line.as_str(), '/', start);
                        let id = line.as_str().substring_char(start, end);
                        let short = short_container_id(id);
                        proof {
                            assert(find_sub_at(ls[i as int], "/docker/"@, 0) == idx);
                            assert(spec_cgroup_class(suffix) == Some(
                                SupervisorView::Docker { container_id: spec_docker_id(ls[i as int]) },
                            ));
                            assert(short@ == spec_docker_id(ls[i as int]));
                        }
                        return Supervisor::Docker { container_id: short };
                    },
                    None => {},
                }
                i = i + 1;
            }
            proof {
                assert(ls.subrange(i as int, ls.len() as int).len() == 0);
            }
            supervisor_fallback(pid, ppid)
        },
        None => supervisor_fallback(pid, ppid),
    }
}

/// The classification used when the cgroup text decides nothing.
fn supervisor_fallback(pid: u32, ppid: u32) -> (r: Supervisor)
    ensures
        r@ == spec_supervisor(pid, None::<Seq<char>>, ppid),
{
    if pid == 1 {
        Supervisor::Unknown
    } else if ppid == 1 {
        Supervisor::Systemd { unit: "direct".to_owned() }
    } else {
        Supervisor::Shell
    }
}

/// Whole days elapsed since `start`, zero when the clock reads earlier
/// than the start time.
pub open spec fn spec_uptime_days(now_secs: u64, start: u64) -> int {
    if now_secs >= start {
        (now_secs - start) / 86400
    } else {
        0
    }
}

/// The warnings derived from a snapshot, recomputed on every pass:
/// superuser ownership, CPU above 80%, resident set above 1 GiB, and
/// an uptime beyond 90 days.
pub open spec fn spec_warnings(
    user: Seq<char>,
    cpu_centi_percent: u64,
    memory_rss: u64,
    start_time: u64,
    now_secs: u64,
) -> Seq<ProcessWarning> {
    (if user == "0"@ {
        seq![ProcessWarning::RunningAsRoot]
    } else {
        Seq::empty()
    }) + (if cpu_centi_percent > 8000 {
        seq![ProcessWarning::HighCpu { centi_percent: cpu_centi_percent }]
    } else {
        Seq::empty()
    }) + (if memory_rss > 1073741824 {
        seq![ProcessWarning::HighMemory { bytes: memory_rss }]
    } else {
        Seq::empty()
    }) + (if spec_uptime_days(now_secs, start_time) > 90 {
        seq![ProcessWarning::LongUptime { days: spec_uptime_days(now_secs, start_time) as u64 }]
    } else {
        Seq::empty()
    })
}

/// Derives the warning list for a snapshot at clock reading
/// `now_secs`.
pub fn detect_warnings(info: &ProcessInfo, now_secs: u64) -> (r: Vec<ProcessWarning>)
    ensures
        r@ == spec_warnings(
            info.user@,
            info.cpu_centi_percent,
            info.memory_rss,
            info.start_time,
            now_secs,
        ),
{
    let mut out: Vec<ProcessWarning> = Vec::new();
    if str_eq(info.user.as_str(), "0") {
        out.push(ProcessWarning::RunningAsRoot);
    }
    if info.cpu_centi_percent > 8000 {
        out.push(ProcessWarning::HighCpu { centi_percent: info.cpu_centi_percent });
    }
    if info.memory_rss > 1073741824 {
        out.push(ProcessWarning::HighMemory { bytes: info.memory_rss });
    }
    let days = if now_secs >= info.start_time {
        (now_secs - info.start_time) / 86400
    } else {
        0
    };
    if days > 90 {
        out.push(ProcessWarning::LongUptime { days });
    }
    proof {
        assert(out@ =~= spec_warnings(
            info.user@,
            info.cpu_centi_percent,
            info.memory_rss,
            info.start_time,
            now_secs,
        ));
    }
    out
}

/// Saturating addition, at the specification level.
pub open spec fn sat_add64(a: u64, b: u64) -> u64 {
    if a + b > u64::MAX {
        u64::MAX
    } else {
        (a + b) as u64
    }
}

/// Saturating multiplication, at the specification level.
pub open spec fn sat_mul64(a: u64, b: u64) -> u64 {
    if a * b > u64::MAX {
        u64::MAX
    } else {
        (a * b) as u64
    }
}

/// Saturating addition of two `u64` values.
pub fn sat_add_u64(a: u64, b: u64) -> (r: u64)
    ensures
        r == sat_add64(a, b),
{
    if a > u64::MAX - b {
        u64::MAX
    } else {
        a + b
    }
}

/// Saturating multiplication of two `u64` values.
pub fn sat_mul_u64(a: u64, b: u64) -> (r: u64)
    ensures
        r == sat_mul64(a, b),
{
    if b == 0 {
        return 0;
    }
    let q = u64::MAX / b;
    if a > q {
        proof {
            let m = u64::MAX as int;
            let ai = a as int;
            let bi = b as int;
            vstd::arithmetic::div_mod::lemma_fundamental_div_mod(m, bi);
            vstd::arithmetic::div_mod::lemma_mod_division_less_than_divisor(m, bi);
            assert(q as int == m / bi);
            assert(ai * bi > m) by (nonlinear_arith)
                requires
                    bi >= 1 && ai > m / bi && m == bi * (m / bi) + m % bi && m % bi < bi,
            ;
        }
        u64::MAX
    } else {
        proof {
            let m = u64::MAX as int;
            let ai = a as int;
            let bi = b as int;
            vstd::arithmetic::div_mod::lemma_fundamental_div_mod(m, bi);
            vstd::arithmetic::div_mod::lemma_mod_division_less_than_divisor(m, bi);
            assert(q as int == m / bi);
            assert(ai * bi <= m) by (nonlinear_arith)
                requires
                    bi >= 1 && 0 <= ai <= m / bi && m == bi * (m / bi) + m % bi && 0 <= m % bi,
            ;
        }
        a * b
    }
}

/// The numeric fields read from one stat record, with the command name.
#[derive(Debug)]
pub struct StatFields {
    /// Command name, the text between the record's parentheses.
    pub comm: String,
    pub ppid: u32,
    /// Cumulative user-mode CPU time, in clock ticks.
    pub utime: u64,
    /// Cumulative kernel-mode CPU time, in clock ticks.
    pub stime: u64,
    /// Start time, in clock ticks since boot.
    pub starttime: u64,
    /// Resident set size, in pages.
    pub rss_pages: u64,
}

/// Mathematical image of `StatFields`.
pub struct StatView {
    pub comm: Seq<char>,
    pub ppid: u32,
    pub utime: u64,
    pub stime: u64,
    pub starttime: u64,
    pub rss_pages: u64,
}

impl View for StatFields {
    type V = StatView;

    open spec fn view(&self) -> StatView {
        StatView {
            comm: self.comm@,
            ppid: self.ppid,
            utime: self.utime,
            stime: self.stime,
            starttime: self.starttime,
            rss_pages: self.rss_pages,
        }
    }
}

/// A parse of a decimal field into a `u32`.
pub open spec fn spec_parse_u32_field(s: Seq<char>) -> Option<u32> {
    if spec_parse_u64_dec(s) is Some && spec_parse_u64_dec(s)->Some_0 <= u32::MAX {
        Some(spec_parse_u64_dec(s)->Some_0 as u32)
    } else {
        None
    }
}

/// Decoding of one stat record. The command name sits in parentheses
/// and may itself hold spaces and parentheses, so it runs from the
/// first `'('` to the last `')'`; the whitespace-split fields after it
/// are counted from the state field, so the parent pid is field 1, the
/// CPU times fields 11 and 12, the start time field 19, and the
/// resident set field 21. A record without both parentheses, with too
/// few fields, or with an unparseable numeric field is rejected.
pub open spec fn spec_parse_stat(s: Seq<char>) -> Option<StatView> {
    let i = find_ch(s, '(', 0);
    let j = rfind_ch(s, ')');
    if i == s.len() || j <= i {
        None
    } else {
        let comm = s.subrange(i + 1, j);
        let fs = spec_fields(s.subrange(j + 1, s.len() as int));
        if fs.len() < 22 {
            None
        } else {
            if spec_parse_u32_field(fs[1]) is Some && spec_parse_u64_dec(fs[11]) is Some
                && spec_parse_u64_dec(fs[12]) is Some && spec_parse_u64_dec(fs[19]) is Some
                && spec_parse_u64_dec(fs[21]) is Some {
                Some(
                    StatView {
                        comm,
                        ppid: spec_parse_u32_field(fs[1])->Some_0,
                        utime: spec_parse_u64_dec(fs[11])->Some_0,
                        stime: spec_parse_u64_dec(fs[12])->Some_0,
                        starttime: spec_parse_u64_dec(fs[19])->Some_0,
                        rss_pages: spec_parse_u64_dec(fs[21])->Some_0,
                    },
                )
            } else {
                None
            }
        }
    }
}

/// Parses one process-table stat record.
pub fn parse_proc_stat(line: &str) -> (r: Option<StatFields>)
    ensures
        match r {
            Some(f) => spec_parse_stat(line@) == Some(f@),
            None => spec_parse_stat(line@) is None,
        },
{
    let n = line.unicode_len();
    let i = find_char_from(line, '(', 0);
    proof {
        lemma_find_ch(line@, '(', 0);
        lemma_rfind_ch(line@, ')');
    }
    if i == n {
        return None;
    }
    let j = match rfind_char(line, ')') {
        Some(j) => j,
        None => {
            return None;
        },
    };
    if j <= i {
        return None;
    }
    let comm = line.substring_char(i + 1, j).to_owned();
    let rest = line.substring_char(j + 1, n);
    let fields = split_fields(rest);
    proof {
        assert(views_of(fields@) == spec_fields(line@.subrange(j + 1, n as int)));
    }
    if fields.len() < 22 {
        return None;
    }
    proof {
        assert(fields@[1]@ == spec_fields(line@.subrange(j + 1, n as int))[1]);
        assert(fields@[11]@ == spec_fields(line@.subrange(j + 1, n as int))[11]);
        assert(fields@[12]@ == spec_fields(line@.subrange(j + 1, n as int))[12]);
        assert(fields@[19]@ == spec_fields(line@.subrange(j + 1, n as int))[19]);
        assert(fields@[21]@ == spec_fields(line@.subrange(j + 1, n as int))[21]);
    }
    let ppid64 = match parse_u64_dec(fields[1].as_str()) {
        Some(v) => v,
        None => {
            return None;
        },
    };
    if ppid64 > 0xFFFF_FFFF {
        return None;
    }
    let utime = match parse_u64_dec(fields[11].as_str()) {
        Some(v) => v,
        None => {
            return None;
        },
    };
    let stime = match parse_u64_dec(fields[12].as_str()) {
        Some(v) => v,
        None => {
            return None;
        },
    };
    let starttime = match parse_u64_dec(fields[19].as_str()) {
        Some(v) => v,
        None => {
            return None;
        },
    };
    let rss_pages = match parse_u64_dec(fields[21].as_str()) {
        Some(v) => v,
        None => {
            return None;
        },
    };
    Some(
        StatFields {
            comm,
            ppid: ppid64 as u32,
            utime,
            stime,
            starttime,
            rss_pages,
        },
    )
}

/// The real uid found in status text: the second field of the first
/// line whose first field is the uid label.
pub open spec fn spec_status_uid_lines(lines: Seq<Seq<char>>) -> Option<u32>
    decreases lines.len(),
{
    if lines.len() == 0 {
        None
    } else {
        let fs = spec_fields(lines[0]);
        if fs.len() >= 2 && fs[0] == "Uid:"@ {
            spec_parse_u32_field(fs[1])
        } else {
            spec_status_uid_lines(lines.subrange(1, lines.len() as int))
        }
    }
}

/// The real uid in a process's status text, if it can be read.
pub open spec fn spec_status_uid(text: Seq<char>) -> Option<u32> {
    spec_status_uid_lines(spec_lines(text))
}

/// Extracts the real uid from process status text.
pub fn parse_status_uid(text: &str) -> (r: Option<u32>)
    ensures
        r == spec_status_uid(text@),
{
    let lines = split_lines(text);
    let ghost ls = spec_lines(text@);
    let mut i: usize = 0;
    proof {
        assert(ls.subrange(0, ls.len() as int) =~= ls);
    }
    while i < lines.len()
        invariant
            0 <= i <= lines@.len(),
            ls == spec_lines(text@),
            views_of(lines@) == ls,
            lines@.len() == ls.len(),
            spec_status_uid_lines(ls) == spec_status_uid_lines(
                ls.subrange(i as int, ls.len() as int),
            ),
        decreases lines.len() - i,
    {
        let ghost suffix = ls.subrange(i as int, ls.len() as int);
        proof {
            assert(suffix[0] == ls[i as int]);
            assert(lines@[i as int]@ == ls[i as int]);
            assert(suffix.subrange(1, suffix.len() as int) =~= ls.subrange(
                i + 1,
                ls.len() as int,
            ));
        }
        let fields = split_fields(lines[i].as_str());
        proof {
            assert(views_of(fields@) == spec_fields(ls[i as int]));
        }
        if fields.len() >= 2 && str_eq(fields[0].as_str(), "Uid:") {
            proof {
                assert(fields@[0]@ == spec_fields(ls[i as int])[0]);
                assert(fields@[1]@ == spec_fields(ls[i as int])[1]);
            }
            let v = match parse_u64_dec(fields[1].as_str()) {
                Some(v) => v,
                None => {
                    return None;
                },
            };
            if v > 0xFFFF_FFFF {
                return None;
            }
            return Some(v as u32);
        }
        i = i + 1;
    }
    proof {
        assert(ls.subrange(i as int, ls.len() as int).len() == 0);
    }
    None
}

/// The raw text captured for one process directory during an
/// enumeration pass. Reading and capture happen at the edge; every
/// computation on the captured text is specified here.
#[derive(Debug)]
pub struct RawProcessSample {
    /// The pid named by the process directory.
    pub pid: u32,
    /// The one-line stat record.
    pub stat_line: String,
    /// The status text; empty when unreadable.
    pub status_text: String,
    /// Command-line arguments, split at the separating null bytes.
    pub cmdline: Vec<String>,
    /// Cgroup membership text, when readable.
    pub cgroup_text: Option<String>,
}

/// Mathematical image of a `RawProcessSample`.
pub struct RawSampleView {
    pub pid: u32,
    pub stat_line: Seq<char>,
    pub status_text: Seq<char>,
    pub cmdline: Seq<Seq<char>>,
    pub cgroup_text: Option<Seq<char>>,
}

impl View for RawProcessSample {
    type V = RawSampleView;

    open spec fn view(&self) -> RawSampleView {
        RawSampleView {
            pid: self.pid,
            stat_line: self.stat_line@,
            status_text: self.status_text@,
            cmdline: self.cmdline.deep_view(),
            cgroup_text: match self.cgroup_text {
                Some(ref t) => Some(t@),
                None => None,
            },
        }
    }
}

/// The views of a sequence of raw samples.
pub open spec fn sample_views(v: Seq<RawProcessSample>) -> Seq<RawSampleView> {
    v.map_values(|x: RawProcessSample| x@)
}

/// Machine facts a collection pass needs, captured once per pass.
#[derive(Debug, Clone, Copy, PartialEq, Eq, Structural)]
pub struct SysParams {
    /// Bytes per memory page.
    pub page_size: u64,
    /// Scheduler clock ticks per second.
    pub ticks_per_second: u64,
    /// Boot time, in seconds since the epoch.
    pub boot_time_secs: u64,
    /// Number of logical CPUs.
    pub ncpus: u32,
    /// The pass's clock reading, in milliseconds.
    pub now_ms: u64,
    /// The pass's clock reading, in seconds since the epoch.
    pub now_secs: u64,
}

/// The cached sample for `pid`, if one is held.
pub open spec fn map_prev(m: Map<u32, CpuSample>, pid: u32) -> Option<CpuSample> {
    if m.contains_key(pid) {
        Some(m[pid])
    } else {
        None
    }
}

/// The owning-user text of a snapshot: the uid in decimal, or a
/// question mark when the status text yields none.
pub open spec fn spec_user_string(uid: Option<u32>) -> Seq<char> {
    match uid {
        Some(u) => spec_dec_str(u as int),
        None => "?"@,
    }
}

/// The snapshot assembled from one raw sample given the cached CPU
/// sample, or nothing when the stat record does not parse.
pub open spec fn spec_process_info(
    prev: Option<CpuSample>,
    s: RawSampleView,
    p: SysParams,
) -> Option<ProcessInfoView> {
    match spec_parse_stat(s.stat_line) {
        None => None,
        Some(st) => {
            let user = spec_user_string(spec_status_uid(s.status_text));
            let cpu = spec_cpu_result(
                prev,
                sat_add64(st.utime, st.stime),
                p.now_ms,
                p.ticks_per_second,
                p.ncpus,
            ) as u64;
            let rss = sat_mul64(st.rss_pages, p.page_size);
            let start = sat_add64(p.boot_time_secs, st.starttime / p.ticks_per_second);
            Some(
                ProcessInfoView {
                    pid: s.pid,
                    ppid: st.ppid,
                    name: st.comm,
                    cmdline: s.cmdline,
                    user: user,
                    cpu_centi_percent: cpu,
                    memory_rss: rss,
                    start_time: start,
                    supervisor: spec_supervisor(s.pid, s.cgroup_text, st.ppid),
                    warnings: spec_warnings(user, cpu, rss, start, p.now_secs),
                },
            )
        },
    }
}

/// How one raw sample changes the CPU-sample cache: a parseable stat
/// record stores a fresh reading, anything else leaves the cache
/// untouched.
pub open spec fn spec_step_map(
    m: Map<u32, CpuSample>,
    s: RawSampleView,
    p: SysParams,
) -> Map<u32, CpuSample> {
    match spec_parse_stat(s.stat_line) {
        Some(st) => m.insert(
            s.pid,
            CpuSample { total_ticks: sat_add64(st.utime, st.stime), at_ms: p.now_ms },
        ),
        None => m,
    }
}

/// The snapshots of a whole pass, threading the cache through the
/// samples in order.
pub open spec fn spec_collect(
    m: Map<u32, CpuSample>,
    items: Seq<RawSampleView>,
    p: SysParams,
) -> Seq<ProcessInfoView>
    decreases items.len(),
{
    if items.len() == 0 {
        Seq::empty()
    } else {
        let rest = spec_collect(spec_step_map(m, items[0], p), items.subrange(1, items.len() as int), p);
        match spec_process_info(map_prev(m, items[0].pid), items[0], p) {
            Some(iv) => seq![iv] + rest,
            None => rest,
        }
    }
}

/// The cache left behind by a whole pass.
pub open spec fn spec_collect_map(
    m: Map<u32, CpuSample>,
    items: Seq<RawSampleView>,
    p: SysParams,
) -> Map<u32, CpuSample>
    decreases items.len(),
{
    if items.len() == 0 {
        m
    } else {
        spec_collect_map(spec_step_map(m, items[0], p), items.subrange(1, items.len() as int), p)
    }
}

impl ProcessCollector {
    /// Builds one snapshot from a raw sample, updating the CPU-sample
    /// cache. Returns nothing when the stat record does not parse, in
    /// which case the cache is untouched.
    pub fn collect_process_info(
        &mut self,
        sample: &RawProcessSample,
        params: &SysParams,
    ) -> (r: Option<ProcessInfo>)
        requires
            params.ticks_per_second >= 1,
        ensures
            final(self)@ == spec_step_map(old(self)@, sample@, *params),
            match spec_process_info(map_prev(old(self)@, sample.pid), sample@, *params) {
                Some(iv) => r is Some && r->Some_0@ == iv,
                None => r is None,
            },
    {
        let st = match parse_proc_stat(sample.stat_line.as_str()) {
            Some(st) => st,
            None => {
                return None;
            },
        };
        let uid = parse_status_uid(sample.status_text.as_str());
        let user = match uid {
            Some(u) => u64_to_string(u as u64),
            None => "?".to_owned(),
        };
        let total = sat_add_u64(st.utime, st.stime);
        let cpu = self.observe_cpu(
            sample.pid,
            total,
            params.now_ms,
            params.ticks_per_second,
            params.ncpus,
        );
        let memory_rss = sat_mul_u64(st.rss_pages, params.page_size);
        let start_time = sat_add_u64(
            params.boot_time_secs,
            st.starttime / params.ticks_per_second,
        );
        let supervisor = detect_supervisor(sample.pid, &sample.cgroup_text, st.ppid);
        let mut info = ProcessInfo {
            pid: sample.pid,
            ppid: st.ppid,
            name: st.comm,
            cmdline: copy_string_vec(&sample.cmdline),
            user,
            cpu_centi_percent: cpu,
            memory_rss,
            start_time,
            supervisor,
            warnings: Vec::new(),
        };
        let warnings = detect_warnings(&info, params.now_secs);
        info.warnings = warnings;
        Some(info)
    }

    /// One full collection pass: builds a snapshot for every sample
    /// whose stat record parses, in order, and threads the CPU-sample
    /// cache through them. An entry that cannot be read never aborts
    /// the pass; it is skipped.
    pub fn collect(
        &mut self,
        samples: &Vec<RawProcessSample>,
        params: &SysParams,
    ) -> (r: Vec<ProcessInfo>)
        requires
            params.ticks_per_second >= 1,
        ensures
            info_views(r@) == spec_collect(old(self)@, sample_views(samples@), *params),
            final(self)@ == spec_collect_map(old(self)@, sample_views(samples@), *params),
    {
        let ghost all = sample_views(samples@);
        let mut out: Vec<ProcessInfo> = Vec::new();
        let mut i: usize = 0;
        proof {
            assert(all.subrange(0, all.len() as int) =~= all);
            assert(info_views(out@) + spec_collect(self@, all, *params) =~= spec_collect(
                self@,
                all,
                *params,
            ));
        }
        while i < samples.len()
            invariant
                0 <= i <= samples@.len(),
                all == sample_views(samples@),
                all.len() == samples@.len(),
                params.ticks_per_second >= 1,
                spec_collect(old(self)@, all, *params) == info_views(out@) + spec_collect(
                    self@,
                    all.subrange(i as int, all.len() as int),
                    *params,
                ),
                spec_collect_map(old(self)@, all, *params) == spec_collect_map(
                    self@,
                    all.subrange(i as int, all.len() as int),
                    *params,
                ),
            decreases samples.len() - i,
        {
            let ghost suffix = all.subrange(i as int, all.len() as int);
            let ghost m_before = self@;
            proof {
                assert(suffix[0] == all[i as int]);
                assert(all[i as int] == samples@[i as int]@);
                assert(suffix.subrange(1, suffix.len() as int) =~= all.subrange(
                    i + 1,
                    all.len() as int,
                ));
            }
            let sample = &samples[i];
            match self.collect_process_info(sample, params) {
                Some(info) => {
                    let ghost old_out = out@;
                    out.push(info);
                    proof {
                        assert(info_views(out@) =~= info_views(old_out).push(out@.last()@));
                        assert(spec_collect(m_before, suffix, *params) =~= seq![
                            out@.last()@,
                        ] + spec_collect(self@, all.subrange(i + 1, all.len() as int), *params));
                    }
                },
                None => {
                    proof {
                        assert(spec_collect(m_before, suffix, *params) =~= spec_collect(
                            self@,
                            all.subrange(i + 1, all.len() as int),
                            *params,
                        ));
                    }
                },
            }
            i = i + 1;
        }
        proof {
            assert(all.subrange(i as int, all.len() as int).len() == 0);
            assert(spec_collect(old(self)@, all, *params) =~= info_views(out@));
        }
        out
    }
}

impl ProcessWarning {
    /// Short marker text for the warning.
    pub fn symbol(&self) -> (r: &str)
        ensures
            r@ == match self {
                ProcessWarning::RunningAsRoot => "! ROOT"@,
                ProcessWarning::HighCpu { .. } => "! HIGH_CPU"@,
                ProcessWarning::HighMemory { .. } => "! HIGH_MEM"@,
                ProcessWarning::LongUptime { .. } => "! LONG_UPTIME"@,
            },
    {
        match self {
            ProcessWarning::RunningAsRoot => "! ROOT",
            ProcessWarning::HighCpu { .. } => "! HIGH_CPU",
            ProcessWarning::HighMemory { .. } => "! HIGH_MEM",
            ProcessWarning::LongUptime { .. } => "! LONG_UPTIME",
        }
    }
}

/// The description text of a warning: percentages and gibibytes with
/// one decimal, truncated.
pub open spec fn spec_warning_description(w: ProcessWarning) -> Seq<char> {
    match w {
        ProcessWarning::RunningAsRoot => "Running as root"@,
        ProcessWarning::HighCpu { centi_percent } => "High CPU usage: "@ + spec_dec_str(
            centi_percent as int / 100,
        ) + "."@ + spec_dec_str(centi_percent as int % 100 / 10) + "%"@,
        ProcessWarning::HighMemory { bytes } => {
            let gb_tenths = bytes as int * 10 / 1073741824;
            "High memory usage: "@ + spec_dec_str(gb_tenths / 10) + "."@ + spec_dec_str(
                gb_tenths % 10,
            ) + " GB"@
        },
        ProcessWarning::LongUptime { days } => "Long uptime: "@ + spec_dec_str(days as int)
            + " days"@,
    }
}

impl ProcessWarning {
    /// Renders the warning for display.
    pub fn description(&self) -> (r: String)
        ensures
            r@ == spec_warning_description(*self),
    {
        match self {
            ProcessWarning::RunningAsRoot => "Running as root".to_owned(),
            ProcessWarning::HighCpu { centi_percent } => {
                let mut s = "High CPU usage: ".to_owned();
                let whole = u64_to_string(*centi_percent / 100);
                append_str(&mut s, whole.as_str());
                append_str(&mut s, ".");
                let tenth = u64_to_string(*centi_percent % 100 / 10);
                append_str(&mut s, tenth.as_str());
                append_str(&mut s, "%");
                s
            },
            ProcessWarning::HighMemory { bytes } => {
                let gb_tenths = (((*bytes as u128) * 10) / 1073741824) as u64;
                let mut s = "High memory usage: ".to_owned();
                let whole = u64_to_string(gb_tenths / 10);
                append_str(&mut s, whole.as_str());
                append_str(&mut s, ".");
                let tenth = u64_to_string(gb_tenths % 10);
                append_str(&mut s, tenth.as_str());
                append_str(&mut s, " GB");
                s
            },
            ProcessWarning::LongUptime { days } => {
                let mut s = "Long uptime: ".to_owned();
                let d = u64_to_string(*days);
                append_str(&mut s, d.as_str());
                append_str(&mut s, " days");
                s
            },
        }
    }
}

/// Resident-set text: whole kibibytes below one mebibyte, then
/// mebibytes and gibibytes with one decimal, truncated.
pub open spec fn spec_memory_str(rss: u64) -> Seq<char> {
    let kb = rss as int / 1024;
    if kb < 1024 {
        spec_dec_str(kb) + " KB"@
    } else {
        let mb_tenths = kb * 10 / 1024;
        if kb < 1048576 {
            spec_dec_str(mb_tenths / 10) + "."@ + spec_dec_str(mb_tenths % 10) + " MB"@
        } else {
            let gb_tenths = kb * 10 / 1048576;
            spec_dec_str(gb_tenths / 10) + "."@ + spec_dec_str(gb_tenths % 10) + " GB"@
        }
    }
}

/// Uptime text: days, hours and minutes, omitting leading zero units.
pub open spec fn spec_uptime_text(now_secs: u64, start: u64) -> Seq<char> {
    let secs = if now_secs >= start {
        now_secs - start
    } else {
        0
    };
    let days = secs / 86400;
    let hours = secs % 86400 / 3600;
    let minutes = secs % 3600 / 60;
    if days > 0 {
        spec_dec_str(days) + "d "@ + spec_dec_str(hours) + "h "@ + spec_dec_str(minutes) + "m"@
    } else if hours > 0 {
        spec_dec_str(hours) + "h "@ + spec_dec_str(minutes) + "m"@
    } else {
        spec_dec_str(minutes) + "m"@
    }
}

impl ProcessInfo {
    /// Renders the resident set size for display.
    pub fn memory_str(&self) -> (r: String)
        ensures
            r@ == spec_memory_str(self.memory_rss),
    {
        let kb = self.memory_rss / 1024;
        if kb < 1024 {
            let mut s = u64_to_string(kb);
            append_str(&mut s, " KB");
            s
        } else if kb < 1048576 {
            let mb_tenths = kb * 10 / 1024;
            let mut s = u64_to_string(mb_tenths / 10);
            append_str(&mut s, ".");
            let tenth = u64_to_string(mb_tenths % 10);
            append_str(&mut s, tenth.as_str());
            append_str(&mut s, " MB");
            s
        } else {
            let gb_tenths = kb * 10 / 1048576;
            let mut s = u64_to_string(gb_tenths / 10);
            append_str(&mut s, ".");
            let tenth = u64_to_string(gb_tenths % 10);
            append_str(&mut s, tenth.as_str());
            append_str(&mut s, " GB");
            s
        }
    }

    /// Renders uptime at clock reading `now_secs`.
    pub fn uptime_display(&self, now_secs: u64) -> (r: String)
        ensures
            r@ == spec_uptime_text(now_secs, self.start_time),
    {
        let secs = if now_secs >= self.start_time {
            now_secs - self.start_time
        } else {
            0
        };
        let days = secs / 86400;
        let hours = secs % 86400 / 3600;
        let minutes = secs % 3600 / 60;
        if days > 0 {
            let mut s = u64_to_string(days);
            append_str(&mut s, "d ");
            let h = u64_to_string(hours);
            append_str(&mut s, h.as_str());
            append_str(&mut s, "h ");
            let m = u64_to_string(minutes);
            append_str(&mut s, m.as_str());
            append_str(&mut s, "m");
            s
        } else if hours > 0 {
            let mut s = u64_to_string(hours);
            append_str(&mut s, "h ");
            let m = u64_to_string(minutes);
            append_str(&mut s, m.as_str());
            append_str(&mut s, "m");
            s
        } else {
            let mut s = u64_to_string(minutes);
            append_str(&mut s, "m");
            s
        }
    }

    /// Renders uptime against the clock. The clock decides the
    /// reading; whatever it reads, the text is the uptime for it.
    pub fn uptime_str(&self) -> (r: String)
        ensures
            exists|now: u64| r@ == spec_uptime_text(now, self.start_time),
    {
        let now = crate::clock::now_unix_secs();
        let r = self.uptime_display(now);
        proof {
            assert(r@ == spec_uptime_text(now, self.start_time));
        }
        r
    }
}

/// The snapshot invariant: a positive pid and a CPU percentage within
/// the machine's capacity.
pub open spec fn wf_snapshot(p: ProcessInfoView, ncpus: u32) -> bool {
    p.pid > 0 && p.cpu_centi_percent as int <= 10_000 * ncpus as int
}

/// One observation's result lies in the clamp range.
pub proof fn lemma_cpu_result_bounds(
    prev: Option<CpuSample>,
    total_ticks: u64,
    now_ms: u64,
    tps: u64,
    ncpus: u32,
)
    requires
        tps >= 1,
    ensures
        0 <= spec_cpu_result(prev, total_ticks, now_ms, tps, ncpus) <= 10_000 * ncpus as int,
{
    match prev {
        None => {},
        Some(p) => {
            if now_ms > p.at_ms && total_ticks >= p.total_ticks {
                let delta = total_ticks - p.total_ticks;
                let t = tps as int;
                let w = now_ms - p.at_ms;
                assert(t * w >= 1) by (nonlinear_arith)
                    requires
                        t >= 1 && w >= 1,
                ;
                assert(delta * 10_000_000 >= 0) by (nonlinear_arith)
                    requires
                        delta >= 0,
                ;
                vstd::arithmetic::div_mod::lemma_div_pos_is_pos(delta * 10_000_000, t * w);
            }
        },
    }
}

/// Every snapshot a collection pass yields satisfies the snapshot
/// invariant, provided every sample carries a positive pid.
pub proof fn lemma_collect_wf(
    m: Map<u32, CpuSample>,
    items: Seq<RawSampleView>,
    p: SysParams,
)
    requires
        p.ticks_per_second >= 1,
        forall|i: int| 0 <= i < items.len() ==> (#[trigger] items[i]).pid > 0,
    ensures
        forall|k: int|
            0 <= k < spec_collect(m, items, p).len() ==> wf_snapshot(
                #[trigger] spec_collect(m, items, p)[k],
                p.ncpus,
            ),
    decreases items.len(),
{
    if items.len() > 0 {
        let rest = items.subrange(1, items.len() as int);
        assert(forall|i: int| 0 <= i < rest.len() ==> (#[trigger] rest[i]).pid > 0) by {
            assert(forall|i: int| 0 <= i < rest.len() ==> rest[i] == items[i + 1]);
        }
        lemma_collect_wf(spec_step_map(m, items[0], p), rest, p);
        match spec_process_info(map_prev(m, items[0].pid), items[0], p) {
            Some(iv) => {
                match spec_parse_stat(items[0].stat_line) {
                    Some(st) => {
                        lemma_cpu_result_bounds(
                            map_prev(m, items[0].pid),
                            sat_add64(st.utime, st.stime),
                            p.now_ms,
                            p.ticks_per_second,
                            p.ncpus,
                        );
                    },
                    None => {},
                }
                let whole = spec_collect(m, items, p);
                assert(whole[0] == iv);
                assert(forall|k: int|
                    1 <= k < whole.len() ==> whole[k] == spec_collect(
                        spec_step_map(m, items[0], p),
                        rest,
                        p,
                    )[k - 1]);
            },
            None => {},
        }
    }
}

} // verus!
